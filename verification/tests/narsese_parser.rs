use nar20_1::narsese_parser::parseNarsese;
use nar20_1::nar_sentence::EnumPunctation;
use nar20_1::term::{Term, convTermToStr};

/// the truth value of a parsed sentence: the one written, else the default {1.0 0.9}
fn tv_of(tv: &Option<(String, String)>) -> (f64, f64) {
    match tv {
        Some((f, c)) => (f.parse::<f64>().unwrap(), c.parse::<f64>().unwrap()),
        None => (1.0, 0.9),
    }
}

fn parse(narsese: &str) -> Option<(Term, (f64, f64), EnumPunctation, bool)> {
    let (tv, res) = parseNarsese(&narsese.to_string());
    let tv = tv_of(&tv);
    res.map(|(term, punct, is_event)| (term, tv, punct, is_event))
}

#[test]
pub fn inhWithTv() {
    let parseResOpt = parse("<a --> b>. {0.4 0.8}");
    assert_eq!(parseResOpt.is_some(), true);

    let (term, tv, punct, _isEvent) = parseResOpt.unwrap();
    assert_eq!(convTermToStr(&term), "<a --> b>");
    assert_eq!((tv.0 - 0.4).abs() < 0.01, true);
    assert_eq!((tv.1 - 0.8).abs() < 0.01, true);
    assert_eq!(punct, EnumPunctation::JUGEMENT);
}

#[test]
pub fn inhWithoutTv() {
    let parseResOpt = parse("<a --> b>.");
    assert_eq!(parseResOpt.is_some(), true);

    let (term, tv, punct, _isEvent) = parseResOpt.unwrap();
    assert_eq!(convTermToStr(&term), "<a --> b>");
    assert_eq!((tv.0 - 1.0).abs() < 0.01, true);
    assert_eq!((tv.1 - 0.9).abs() < 0.01, true);
    assert_eq!(punct, EnumPunctation::JUGEMENT);
}

#[test]
pub fn predImpl() {
    let parseResOpt = parse("<a =/> b>.");
    assert_eq!(parseResOpt.is_some(), true);

    let (term, tv, punct, _isEvent) = parseResOpt.unwrap();
    assert_eq!(convTermToStr(&term), "<a =/> b>");
    assert_eq!((tv.0 - 1.0).abs() < 0.01, true);
    assert_eq!((tv.1 - 0.9).abs() < 0.01, true);
    assert_eq!(punct, EnumPunctation::JUGEMENT);
}

#[test]
pub fn equiv() {
    let parseResOpt = parse("<a <=> b>.");
    assert_eq!(parseResOpt.is_some(), true);

    let (term, tv, punct, _isEvent) = parseResOpt.unwrap();
    assert_eq!(convTermToStr(&term), "<a <=> b>");
    assert_eq!((tv.0 - 1.0).abs() < 0.01, true);
    assert_eq!((tv.1 - 0.9).abs() < 0.01, true);
    assert_eq!(punct, EnumPunctation::JUGEMENT);
}

#[test]
pub fn numeric() {
    let parseResOpt = parse("<0 --> b>.");
    assert_eq!(parseResOpt.is_some(), true);

    let (term, tv, punct, _isEvent) = parseResOpt.unwrap();
    assert_eq!(convTermToStr(&term), "<0 --> b>");
    assert_eq!((tv.0 - 1.0).abs() < 0.01, true);
    assert_eq!((tv.1 - 0.9).abs() < 0.01, true);
    assert_eq!(punct, EnumPunctation::JUGEMENT);
}

#[test]
pub fn qVar() {
    let parseResOpt = parse("<?a --> b>.");
    assert_eq!(parseResOpt.is_some(), true);

    let (term, tv, punct, _isEvent) = parseResOpt.unwrap();
    assert_eq!(convTermToStr(&term), "<?a --> b>");
    assert_eq!((tv.0 - 1.0).abs() < 0.01, true);
    assert_eq!((tv.1 - 0.9).abs() < 0.01, true);
    assert_eq!(punct, EnumPunctation::JUGEMENT);
}

#[test]
pub fn indepVar() {
    let parseResOpt = parse("<$a --> b>.");
    assert_eq!(parseResOpt.is_some(), true);

    let (term, tv, punct, _isEvent) = parseResOpt.unwrap();
    assert_eq!(convTermToStr(&term), "<$a --> b>");
    assert_eq!((tv.0 - 1.0).abs() < 0.01, true);
    assert_eq!((tv.1 - 0.9).abs() < 0.01, true);
    assert_eq!(punct, EnumPunctation::JUGEMENT);
}

#[test]
pub fn depVar() {
    let parseResOpt = parse("<#a --> b>.");
    assert_eq!(parseResOpt.is_some(), true);

    let (term, tv, punct, _isEvent) = parseResOpt.unwrap();
    assert_eq!(convTermToStr(&term), "<#a --> b>");
    assert_eq!((tv.0 - 1.0).abs() < 0.01, true);
    assert_eq!((tv.1 - 0.9).abs() < 0.01, true);
    assert_eq!(punct, EnumPunctation::JUGEMENT);
}

#[test]
pub fn setInt() {
    let parseResOpt = parse("<a --> [b]>.");
    assert_eq!(parseResOpt.is_some(), true);

    let (term, tv, punct, _isEvent) = parseResOpt.unwrap();
    assert_eq!(convTermToStr(&term), "<a --> [b]>");
    assert_eq!((tv.0 - 1.0).abs() < 0.01, true);
    assert_eq!((tv.1 - 0.9).abs() < 0.01, true);
    assert_eq!(punct, EnumPunctation::JUGEMENT);
}

#[test]
pub fn setExt() {
    let parseResOpt = parse("<{a} --> b>.");
    assert_eq!(parseResOpt.is_some(), true);

    let (term, tv, punct, _isEvent) = parseResOpt.unwrap();
    assert_eq!(convTermToStr(&term), "<{a} --> b>");
    assert_eq!((tv.0 - 1.0).abs() < 0.01, true);
    assert_eq!((tv.1 - 0.9).abs() < 0.01, true);
    assert_eq!(punct, EnumPunctation::JUGEMENT);
}

#[test]
pub fn setExtProd() {
    let parseResOpt = parse("<{(a*c)} --> b>.");
    assert_eq!(parseResOpt.is_some(), true);

    let (term, tv, punct, _isEvent) = parseResOpt.unwrap();
    assert_eq!(convTermToStr(&term), "<{( a * c )} --> b>");
    assert_eq!((tv.0 - 1.0).abs() < 0.01, true);
    assert_eq!((tv.1 - 0.9).abs() < 0.01, true);
    assert_eq!(punct, EnumPunctation::JUGEMENT);
}

#[test]
pub fn prod2() {
    let parseResOpt = parse("<(a*c) --> x>.");
    assert_eq!(parseResOpt.is_some(), true);

    let (term, tv, punct, _isEvent) = parseResOpt.unwrap();
    assert_eq!(convTermToStr(&term), "<( a * c ) --> x>");
    assert_eq!((tv.0 - 1.0).abs() < 0.01, true);
    assert_eq!((tv.1 - 0.9).abs() < 0.01, true);
    assert_eq!(punct, EnumPunctation::JUGEMENT);
}

#[test]
pub fn prod3() {
    let parseResOpt = parse("<(a*c*z) --> x>.");
    assert_eq!(parseResOpt.is_some(), true);

    let (term, tv, punct, _isEvent) = parseResOpt.unwrap();
    assert_eq!(convTermToStr(&term), "<( a * c * z ) --> x>");
    assert_eq!((tv.0 - 1.0).abs() < 0.01, true);
    assert_eq!((tv.1 - 0.9).abs() < 0.01, true);
    assert_eq!(punct, EnumPunctation::JUGEMENT);
}

#[test]
pub fn prod4() {
    let parseResOpt = parse("<(a*c*z*y) --> x>.");
    assert_eq!(parseResOpt.is_some(), true);

    let (term, tv, punct, _isEvent) = parseResOpt.unwrap();
    assert_eq!(convTermToStr(&term), "<( a * c * z * y ) --> x>");
    assert_eq!((tv.0 - 1.0).abs() < 0.01, true);
    assert_eq!((tv.1 - 0.9).abs() < 0.01, true);
    assert_eq!(punct, EnumPunctation::JUGEMENT);
}

#[test]
pub fn intint2() {
    let parseResOpt = parse("<(a|c) --> x>.");
    assert_eq!(parseResOpt.is_some(), true);

    let (term, tv, punct, _isEvent) = parseResOpt.unwrap();
    assert_eq!(convTermToStr(&term), "<( a | c ) --> x>");
    assert_eq!((tv.0 - 1.0).abs() < 0.01, true);
    assert_eq!((tv.1 - 0.9).abs() < 0.01, true);
    assert_eq!(punct, EnumPunctation::JUGEMENT);
}

#[test]
pub fn conj2_0() {
    let parseResOpt = parse("<(a&&c) ==> x>.");
    assert_eq!(parseResOpt.is_some(), true);

    let (term, tv, punct, _isEvent) = parseResOpt.unwrap();
    assert_eq!(convTermToStr(&term), "<( a && c ) ==> x>");
    assert_eq!((tv.0 - 1.0).abs() < 0.01, true);
    assert_eq!((tv.1 - 0.9).abs() < 0.01, true);
    assert_eq!(punct, EnumPunctation::JUGEMENT);
}

#[test]
pub fn conj2_1() {
    let parseResOpt = parse("<(<a --> b>&&c) ==> x>.");
    assert_eq!(parseResOpt.is_some(), true);

    let (term, tv, punct, _isEvent) = parseResOpt.unwrap();
    assert_eq!(convTermToStr(&term), "<( <a --> b> && c ) ==> x>");
    assert_eq!((tv.0 - 1.0).abs() < 0.01, true);
    assert_eq!((tv.1 - 0.9).abs() < 0.01, true);
    assert_eq!(punct, EnumPunctation::JUGEMENT);
}

#[test]
pub fn conj3_0() {
    let parseResOpt = parse("<(a&&c&&d) ==> x>.");
    assert_eq!(parseResOpt.is_some(), true);

    let (term, tv, punct, _isEvent) = parseResOpt.unwrap();
    assert_eq!(convTermToStr(&term), "<( a && c && d ) ==> x>");
    assert_eq!((tv.0 - 1.0).abs() < 0.01, true);
    assert_eq!((tv.1 - 0.9).abs() < 0.01, true);
    assert_eq!(punct, EnumPunctation::JUGEMENT);
}

#[test]
pub fn conj4_0() {
    let parseResOpt = parse("<(a&&c&&d&&e) ==> x>.");
    assert_eq!(parseResOpt.is_some(), true);

    let (term, tv, punct, _isEvent) = parseResOpt.unwrap();
    assert_eq!(convTermToStr(&term), "<( a && c && d && e ) ==> x>");
    assert_eq!((tv.0 - 1.0).abs() < 0.01, true);
    assert_eq!((tv.1 - 0.9).abs() < 0.01, true);
    assert_eq!(punct, EnumPunctation::JUGEMENT);
}

#[test]
pub fn seqPredImpl() {
    let parseResOpt = parse("<(a,b) =/> c>.");
    assert_eq!(parseResOpt.is_some(), true);

    let (term, tv, punct, _isEvent) = parseResOpt.unwrap();
    assert_eq!(convTermToStr(&term), "<( a , b ) =/> c>");
    assert_eq!((tv.0 - 1.0).abs() < 0.01, true);
    assert_eq!((tv.1 - 0.9).abs() < 0.01, true);
    assert_eq!(punct, EnumPunctation::JUGEMENT);
}

#[test]
pub fn neg_0() {
    let parseResOpt = parse("(!a).");
    assert_eq!(parseResOpt.is_some(), true);

    let (term, tv, punct, _isEvent) = parseResOpt.unwrap();
    assert_eq!(convTermToStr(&term), "(! a )");
    assert_eq!((tv.0 - 1.0).abs() < 0.01, true);
    assert_eq!((tv.1 - 0.9).abs() < 0.01, true);
    assert_eq!(punct, EnumPunctation::JUGEMENT);
}

// goal without temporal and TV
#[test]
pub fn goalWithoutTv() {
    let parseResOpt = parse("a-c!");
    assert_eq!(parseResOpt.is_some(), true);

    let (term, _tv, punct, _isEvent) = parseResOpt.unwrap();
    assert_eq!(convTermToStr(&term), "a-c");
    assert_eq!(punct, EnumPunctation::GOAL);
}

#[test]
fn event_and_question() {
    let (term, _tv, punct, isEvent) = parse("<a --> b>? :|:").unwrap();
    assert_eq!(convTermToStr(&term), "<a --> b>");
    assert_eq!(punct, EnumPunctation::QUESTION);
    assert!(isEvent);
    let (_term, tv, punct, isEvent) = parse("<a --> b>! {0.0 0.5} :|:").unwrap();
    assert_eq!(punct, EnumPunctation::GOAL);
    assert!(isEvent);
    assert!((tv.0 - 0.0).abs() < 0.01 && (tv.1 - 0.5).abs() < 0.01);
}

#[test]
fn rejected_sentences() {
    assert!(parse("").is_none());
    assert!(parse("   ").is_none());
    assert!(parse("<a --> b>").is_none());
    assert!(parse("<a --> b>;").is_none());
    assert!(parse("<a -> b>.").is_none());
}

#[test]
fn truth_value_text_is_cut() {
    let mut s = "<a --> b>. {0.3 0.7}".to_string();
    let tv = nar20_1::narsese_parser::parseNarseseRetTv(&mut s);
    assert_eq!(tv, Some(("0.3".to_string(), "0.7".to_string())));
    assert_eq!(s, "<a --> b>. ");
    let mut s = "<a --> b>.".to_string();
    assert_eq!(nar20_1::narsese_parser::parseNarseseRetTv(&mut s), None);
    assert_eq!(s, "<a --> b>.");
}

#[test]
fn entry_leaves_the_rest() {
    let (rest, term) = nar20_1::narsese_parser::parseEntry("<a --> b> rest").unwrap();
    assert_eq!(rest, " rest");
    assert_eq!(convTermToStr(&term), "<a --> b>");
    assert!(nar20_1::narsese_parser::parseEntry("").is_none());
    let (rest, term) = nar20_1::narsese_parser::parseStatement("<{x} <-> [y]>").unwrap();
    assert_eq!(rest, "");
    assert_eq!(convTermToStr(&term), "<{x} <-> [y]>");
}

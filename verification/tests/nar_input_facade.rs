use nar20_1::nar_input_facade::{input, nlpToSentences, InputCommand};
use nar20_1::nar_sentence::EnumPunctation;
use nar20_1::term::{convTermToStr, Copula, Term};

fn cmd(line: &str) -> InputCommand {
    input(&line.to_string())
}

#[test]
fn comments_and_empty_lines() {
    assert!(matches!(cmd("// a comment"), InputCommand::Nothing));
    assert!(matches!(cmd(""), InputCommand::Nothing));
    assert!(matches!(cmd("\n"), InputCommand::Nothing));
}

#[test]
fn cycles() {
    assert!(matches!(cmd("!s"), InputCommand::Cycles(1)));
    assert!(matches!(cmd("!s10\n"), InputCommand::Cycles(10)));
    assert!(matches!(cmd("!s-3"), InputCommand::Cycles(-3)));
    assert!(matches!(cmd("!sp"), InputCommand::StepProcedural));
    assert!(matches!(cmd("!spA"), InputCommand::StepProcedural));
}

#[test]
fn operator_registration() {
    assert!(matches!(cmd("!por execinj"), InputCommand::RegisterExecInject));
    assert!(matches!(cmd("!por nlpRel0"), InputCommand::RegisterNlpRel0));
    match cmd("!por  NOP   ^left ") {
        InputCommand::RegisterNop(n) => assert_eq!(n, "^left"),
        other => panic!("unexpected {:?}", other),
    }
    assert!(matches!(cmd("!por unknown"), InputCommand::Nothing));
    assert!(matches!(cmd("!por NOP a b"), InputCommand::Nothing));
}

#[test]
fn other_commands() {
    assert!(matches!(cmd("!pse"), InputCommand::ShowEvidence));
    assert!(matches!(cmd("!peb 0"), InputCommand::Babbling(false)));
    assert!(matches!(cmd("!peb 1"), InputCommand::Babbling(true)));
    assert!(matches!(cmd("!dt"), InputCommand::DebugTasks));
    assert!(matches!(cmd("!dmd"), InputCommand::DebugMemory));
    assert!(matches!(cmd("!QQ\r\n"), InputCommand::Quit));
}

#[test]
fn natural_language() {
    match cmd("!.nlp2 Tom is fat") {
        InputCommand::Nlp2(t) => assert_eq!(t, " Tom is fat"),
        other => panic!("unexpected {:?}", other),
    }
    match cmd("!.nlp Tom is fat") {
        InputCommand::Nlp(t) => assert_eq!(t, "Tom is fat"),
        other => panic!("unexpected {:?}", other),
    }
    // too short to hold text: Narsese
    assert!(matches!(cmd("!.nlp "), InputCommand::Narsese(_)));
}

#[test]
fn narsese_lines() {
    match cmd("<a --> b>.\n") {
        InputCommand::Narsese(t) => assert_eq!(t, "<a --> b>."),
        other => panic!("unexpected {:?}", other),
    }
}

fn name(n: &str) -> Term {
    Term::Name(n.to_string())
}

fn rel(parts: Vec<&str>, r: &str) -> Term {
    let prod = Term::Prod(parts.iter().map(|p| Box::new(name(p))).collect());
    Term::Stmt(Copula::INH, Box::new(Term::SetExt(vec![Box::new(prod)])), Box::new(name(r)))
}

fn texts(v: &Vec<(Term, EnumPunctation)>) -> Vec<(String, EnumPunctation)> {
    v.iter().map(|(t, p)| (convTermToStr(t), *p)).collect()
}

#[test]
fn nlp_is_relation_becomes_inheritance() {
    let v = nlpToSentences(&rel(vec!["tom", "fat"], "relIs"), false).unwrap();
    assert_eq!(texts(&v), vec![("<tom --> fat>".to_string(), EnumPunctation::JUGEMENT)]);
    let v = nlpToSentences(&rel(vec!["tom", "fat"], "relIs2"), true).unwrap();
    assert_eq!(texts(&v), vec![("<tom --> fat>".to_string(), EnumPunctation::QUESTION)]);
    let v = nlpToSentences(&rel(vec!["tom", "fat"], "relIsQuery"), false).unwrap();
    assert_eq!(texts(&v), vec![("<tom --> fat>".to_string(), EnumPunctation::QUESTION)]);
}

#[test]
fn nlp_generic_relation() {
    let v = nlpToSentences(&rel(vec!["tom", "fat", "is"], "relGENERIC"), false).unwrap();
    assert_eq!(texts(&v), vec![("<tom --> [fat]>".to_string(), EnumPunctation::JUGEMENT)]);
    let v = nlpToSentences(&rel(vec!["tom", "food", "eats"], "relGENERIC"), false).unwrap();
    assert_eq!(
        texts(&v),
        vec![
            ("<{( tom * food * eats )} --> relGENERIC>".to_string(), EnumPunctation::JUGEMENT),
            ("<( tom * food ) --> eats>".to_string(), EnumPunctation::JUGEMENT),
        ]
    );
}

#[test]
fn nlp_unrecognized_relations() {
    assert!(nlpToSentences(&rel(vec!["tom", "fat"], "relOther"), false).is_none());
    assert!(nlpToSentences(&rel(vec!["tom"], "relIs"), false).is_none());
    assert!(nlpToSentences(&name("tom"), false).is_none());
    let t = Term::Stmt(Copula::INH, Box::new(name("x")), Box::new(name("relIs")));
    assert!(nlpToSentences(&t, false).is_none());
}

#[test]
fn nlp_words_to_relations() {
    let tokens: Vec<String> = ["tom", "is", "a", "cat", "and", "?", "a"].iter().map(|t| t.to_string()).collect();
    let rel: Vec<String> = nar20_1::nar_module_nlp::nlp_relations(&tokens).iter().map(|t| convTermToStr(t)).collect();
    assert_eq!(
        rel,
        vec![
            "<{( tom * 0 )} --> TOKEN>",
            "<{( is * 1 )} --> rel2>",
            "<{1} --> TOKENis>",
            "<{( cat * 2 )} --> a2>",
            "<{4} --> TOKENand>",
            "<{( QUESTION * 5 )} --> sign2>",
            "<{( a * 6 )} --> TOKEN>",
        ]
    );
}

#[test]
fn lines_beyond_ascii() {
    assert!(matches!(cmd("// é"), InputCommand::Nothing));
    match cmd("!por NOP ^ä") {
        InputCommand::RegisterNop(n) => assert_eq!(n, "^ä"),
        other => panic!("unexpected {:?}", other),
    }
    match cmd("!.nlp Tom ist groß") {
        InputCommand::Nlp(t) => assert_eq!(t, "Tom ist groß"),
        other => panic!("unexpected {:?}", other),
    }
}

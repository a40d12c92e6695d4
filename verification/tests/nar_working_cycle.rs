use nar20_1::nar_inference::{
    infBinary, inf4, infNeg, infSinglePremise, infStructImg0, infStructImg1, infStructProd0, infStructProd1, inference, infSinglePremise2,
    derive_for_message, populateTaskByTermLookup, select_secondaries, Derived, Premise, TvFn,
};
use nar20_1::nar_sentence::EnumPunctation;
use nar20_1::nar_stamp::newStamp;
use nar20_1::term::{convTermToStr, Copula, Term};

fn name(n: &str) -> Term {
    Term::Name(n.to_string())
}

fn inh(a: Term, b: Term) -> Term {
    Term::Stmt(Copula::INH, Box::new(a), Box::new(b))
}

fn texts(concl: &Vec<(Term, TvFn, EnumPunctation)>) -> Vec<String> {
    concl.iter().map(|c| convTermToStr(&c.0)).collect()
}

#[test]
pub fn impl_a() {
    let a0 = Term::Name("a".to_string());
    let b0 = Term::Name("b".to_string());
    let inh0 = Term::Stmt(Copula::INH, Box::new(a0), Box::new(b0));

    let c0 = Term::IndepVar("c".to_string());
    let d0 = Term::Name("d".to_string());
    let inh1 = Term::Stmt(Copula::INH, Box::new(c0), Box::new(d0));

    let impl0 = Term::Stmt(Copula::IMPL, Box::new(inh0), Box::new(inh1));

    let c1 = Term::Name("c".to_string());
    let d1 = Term::Name("d".to_string());
    let inh2 = Term::Stmt(Copula::INH, Box::new(c1), Box::new(d1));

    println!("{}", &convTermToStr(&impl0));
    println!("{}", &convTermToStr(&inh2));
    println!("concl:");

    let mut success = false;

    let mut wereRulesApplied = false;
    let infConcl = infBinary(&impl0, EnumPunctation::QUESTION, &inh2, EnumPunctation::JUGEMENT, &mut wereRulesApplied);
    for iInfConcl in infConcl {
        let (conclTerm, _conclTv, _punct) = iInfConcl;
        let conclTermStr = convTermToStr(&conclTerm);
        println!("{}", &conclTermStr);
        if conclTermStr == "<<a --> b> ==> <c --> d>>" {
            success = true;
        }
    }

    assert_eq!(success, true);
}

#[test]
pub fn implConj2_a() {
    let a0 = Term::Name("a".to_string());
    let b0 = Term::Name("b".to_string());
    let inh0 = Term::Stmt(Copula::INH, Box::new(a0), Box::new(b0));

    let c0 = Term::Name("c".to_string());
    let d0 = Term::Name("d".to_string());
    let inh1 = Term::Stmt(Copula::INH, Box::new(c0), Box::new(d0));

    let conj0 = Term::Conj(vec![Box::new(inh0), Box::new(inh1)]);

    let x0 = Term::Name("x".to_string());
    let impl0 = Term::Stmt(Copula::IMPL, Box::new(conj0), Box::new(x0));

    let a1 = Term::Name("a".to_string());
    let b1 = Term::Name("b".to_string());
    let inh1 = Term::Stmt(Copula::INH, Box::new(a1), Box::new(b1));

    println!("{}", &convTermToStr(&impl0));
    println!("{}", &convTermToStr(&inh1));
    println!("concl:");

    let mut success = false;

    let mut wereRulesApplied = false;
    let infConcl = infBinary(&impl0, EnumPunctation::JUGEMENT, &inh1, EnumPunctation::JUGEMENT, &mut wereRulesApplied);
    for iInfConcl in infConcl {
        let (conclTerm, _conclTv, _punct) = iInfConcl;
        let conclTermStr = convTermToStr(&conclTerm);
        println!("{}", &conclTermStr);
        if conclTermStr == "<<c --> d> ==> x>" {
            success = true;
        }
    }

    assert_eq!(success, true);
}

#[test]
fn deduction_of_inheritance() {
    // <a --> b>. <b --> c>. |- <a --> c>.
    let mut applied = false;
    let concl = infBinary(&inh(name("a"), name("b")), EnumPunctation::JUGEMENT, &inh(name("b"), name("c")), EnumPunctation::JUGEMENT, &mut applied);
    assert!(applied);
    assert!(concl.iter().any(|c| convTermToStr(&c.0) == "<a --> c>" && c.1 == TvFn::Ded && c.2 == EnumPunctation::JUGEMENT));
}

#[test]
fn deduction_in_other_order_keeps_the_truth_function() {
    // the rule applies with the second premise first; the tag still takes the
    // truth value given first as its first argument
    let mut applied = false;
    let concl = infBinary(&inh(name("b"), name("c")), EnumPunctation::JUGEMENT, &inh(name("a"), name("b")), EnumPunctation::JUGEMENT, &mut applied);
    assert!(applied);
    assert!(concl.iter().any(|c| convTermToStr(&c.0) == "<a --> c>" && c.1 == TvFn::Ded));
}

#[test]
fn binary_inference_is_symmetric() {
    let a = inh(name("m"), name("p"));
    let b = inh(name("m"), name("s"));
    let mut applied = false;
    let ab = infBinary(&a, EnumPunctation::JUGEMENT, &b, EnumPunctation::JUGEMENT, &mut applied);
    let ba = infBinary(&b, EnumPunctation::JUGEMENT, &a, EnumPunctation::JUGEMENT, &mut applied);
    let mut x: Vec<String> = ab.iter().map(|c| format!("{} {:?} {:?}", convTermToStr(&c.0), c.1, c.2)).collect();
    let mut y: Vec<String> = ba.iter().map(|c| format!("{} {:?} {:?}", convTermToStr(&c.0), c.1, c.2)).collect();
    x.sort();
    y.sort();
    assert!(!x.is_empty());
    assert_eq!(x, y);
}

#[test]
fn no_rule_applies_to_unrelated_names() {
    let mut applied = true;
    let concl = infBinary(&name("a"), EnumPunctation::JUGEMENT, &name("b"), EnumPunctation::JUGEMENT, &mut applied);
    assert!(concl.is_empty());
    assert!(!applied);
}

#[test]
fn negation_gives_the_negated_term() {
    let t = Term::Neg(Box::new(name("a")));
    let c = infNeg(&t, EnumPunctation::JUGEMENT).unwrap();
    assert_eq!(convTermToStr(&c.0), "a");
    assert_eq!(c.1, TvFn::NegFirst);
    assert!(infNeg(&t, EnumPunctation::QUESTION).is_none());
    assert!(infNeg(&name("a"), EnumPunctation::JUGEMENT).is_none());
}

#[test]
fn product_structural_rules() {
    let t = inh(Term::Prod(vec![Box::new(name("x")), Box::new(name("y"))]), name("rel"));
    let c0 = infStructProd0(&t, EnumPunctation::JUGEMENT).unwrap();
    assert_eq!(convTermToStr(&c0.0), "<x --> ( rel /1 y )>");
    let c1 = infStructProd1(&t, EnumPunctation::JUGEMENT).unwrap();
    assert_eq!(convTermToStr(&c1.0), "<y --> ( rel /2 x )>");
    let all = infSinglePremise(&t, EnumPunctation::JUGEMENT);
    let txt = texts(&all);
    assert!(txt.contains(&"<x --> ( rel /1 y )>".to_string()));
    assert!(txt.contains(&"<y --> ( rel /2 x )>".to_string()));
}

fn premise(term: Term, ids: Vec<i64>) -> Premise {
    Premise { term: term, punct: EnumPunctation::JUGEMENT, stamp: newStamp(&ids) }
}

#[test]
fn inference_merges_stamps() {
    let pa = premise(inh(name("a"), name("b")), vec![1, 3]);
    let pb = premise(inh(name("b"), name("c")), vec![2]);
    let mut applied = false;
    let derived: Vec<Derived> = inference(&pa, &pb, &mut applied);
    assert!(applied);
    assert!(!derived.is_empty());
    for d in &derived {
        assert_eq!(d.stamp.ids, vec![1, 2, 3]);
    }
    assert!(derived.iter().any(|d| convTermToStr(&d.term) == "<a --> c>" && d.tvFn == TvFn::Ded));
}

#[test]
fn inference_with_overlapping_stamps_derives_nothing() {
    let pa = premise(inh(name("a"), name("b")), vec![1, 2]);
    let pb = premise(inh(name("b"), name("c")), vec![2, 5]);
    let mut applied = false;
    let derived = inference(&pa, &pb, &mut applied);
    assert!(applied);
    assert!(derived.is_empty());
}

#[test]
fn single_premise_keeps_the_stamp() {
    let pa = premise(Term::Neg(Box::new(name("a"))), vec![7, 8]);
    let derived = infSinglePremise2(&pa);
    assert_eq!(derived.len(), 1);
    assert_eq!(convTermToStr(&derived[0].term), "a");
    assert_eq!(derived[0].stamp.ids, vec![7, 8]);
}

#[test]
fn image_rules_keep_the_punctuation() {
    let t = inh(name("x"), Term::Img(Box::new(name("r")), 0, vec![Box::new(name("y"))]));
    let c = infStructImg0(&t, EnumPunctation::QUESTION).unwrap();
    assert_eq!(convTermToStr(&c.0), "<( x * y ) --> r>");
    assert_eq!(c.2, EnumPunctation::QUESTION);
    let c = infStructImg0(&t, EnumPunctation::JUGEMENT).unwrap();
    assert_eq!(c.2, EnumPunctation::JUGEMENT);
    let t = inh(name("y"), Term::Img(Box::new(name("r")), 1, vec![Box::new(name("x"))]));
    let c = infStructImg1(&t, EnumPunctation::QUESTION).unwrap();
    assert_eq!(convTermToStr(&c.0), "<( x * y ) --> r>");
    assert_eq!(c.2, EnumPunctation::QUESTION);
    assert!(infStructImg0(&t, EnumPunctation::GOAL).is_none());
}

#[test]
fn secondaries_filed_under_subterms() {
    let primary = inh(name("a"), name("b"));
    let index = vec![
        (name("b"), vec![3, 4]),
        (name("a"), vec![1, 3]),
        (name("c"), vec![9]),
        (inh(name("a"), name("b")), vec![7]),
    ];
    // unique subterms: <a --> b>, a, b
    assert_eq!(select_secondaries(&primary, &index), vec![7, 1, 3, 4]);
    assert_eq!(select_secondaries(&name("z"), &index), Vec::<i64>::new());
}

#[test]
fn derivation_for_a_primary_premise() {
    let primary = premise(inh(name("a"), name("b")), vec![1]);
    let secondaries = vec![premise(inh(name("b"), name("c")), vec![2]), premise(inh(name("b"), name("d")), vec![1])];
    let beliefs = vec![premise(inh(name("b"), name("e")), vec![5])];
    let d = derive_for_message(&primary, &secondaries, &beliefs);
    let txt: Vec<String> = d.iter().map(|x| convTermToStr(&x.term)).collect();
    assert!(txt.contains(&"<a --> c>".to_string()));
    assert!(txt.contains(&"<a --> e>".to_string()));
    // the second secondary shares evidence with the primary: nothing from it
    assert!(!txt.contains(&"<a --> d>".to_string()));
    for x in &d {
        if convTermToStr(&x.term) == "<a --> e>" {
            assert_eq!(x.stamp.ids, vec![1, 5]);
        }
    }
}

#[test]
fn binary_conclusions_are_judgements() {
    let mut applied = false;
    let concl = infBinary(&inh(name("a"), name("b")), EnumPunctation::QUESTION, &inh(name("b"), name("c")), EnumPunctation::JUGEMENT, &mut applied);
    for c in &concl {
        assert_eq!(c.2, EnumPunctation::JUGEMENT);
    }
}

#[test]
fn tasks_filed_under_their_subterms() {
    let mut index: Vec<(Term, Vec<i64>)> = vec![];
    populateTaskByTermLookup(&mut index, &inh(name("a"), name("b")), 1);
    populateTaskByTermLookup(&mut index, &inh(name("b"), name("b")), 2);
    let entries: Vec<(String, Vec<i64>)> = index.iter().map(|(t, ids)| (convTermToStr(t), ids.clone())).collect();
    assert_eq!(
        entries,
        vec![
            ("<a --> b>".to_string(), vec![1]),
            ("a".to_string(), vec![1]),
            ("b".to_string(), vec![1, 2, 2]),
            ("<b --> b>".to_string(), vec![2]),
        ]
    );
    assert_eq!(select_secondaries(&name("b"), &index), vec![1, 2]);
}

#[test]
fn union_of_extensional_subjects() {
    let a = inh(Term::SetExt(vec![Box::new(name("x"))]), name("m"));
    let b = inh(Term::SetExt(vec![Box::new(name("y"))]), name("m"));
    let c = inf4(&a, EnumPunctation::JUGEMENT, &b, EnumPunctation::JUGEMENT).unwrap();
    assert_eq!(convTermToStr(&c.0), "<{x y} --> m>");
    assert_eq!(c.1, TvFn::First);
    assert_eq!(c.2, EnumPunctation::JUGEMENT);
    assert!(inf4(&a, EnumPunctation::QUESTION, &b, EnumPunctation::JUGEMENT).is_none());
    let other = inh(Term::SetExt(vec![Box::new(name("y"))]), name("n"));
    assert!(inf4(&a, EnumPunctation::JUGEMENT, &other, EnumPunctation::JUGEMENT).is_none());
    let mut applied = false;
    let concl = infBinary(&a, EnumPunctation::JUGEMENT, &b, EnumPunctation::JUGEMENT, &mut applied);
    let txt: Vec<String> = concl.iter().map(|c| convTermToStr(&c.0)).collect();
    assert!(txt.contains(&"<{x y} --> m>".to_string()));
    assert!(txt.contains(&"<{y x} --> m>".to_string()));
}

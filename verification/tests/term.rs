use nar20_1::term::{calcComplexity, checkEqTerm, convTermToStr, retSubterms, retUniqueSubterms, Copula, Term};
use nar20_1::term_api;
use nar20_1::term_api::{conj, p, p2, p3, s};

fn name(n: &str) -> Term {
    Term::Name(n.to_string())
}

fn inh(a: Term, b: Term) -> Term {
    Term::Stmt(Copula::INH, Box::new(a), Box::new(b))
}

fn strs(v: &Vec<Term>) -> Vec<String> {
    v.iter().map(|t| convTermToStr(t)).collect()
}

#[test]
fn print_each_kind_of_term() {
    let a = name("a");
    let b = name("b");
    assert_eq!(convTermToStr(&s(Copula::SIM, &a, &b)), "<a <-> b>");
    assert_eq!(convTermToStr(&s(Copula::INH, &a, &b)), "<a --> b>");
    assert_eq!(convTermToStr(&s(Copula::PREDIMPL, &a, &b)), "<a =/> b>");
    assert_eq!(convTermToStr(&s(Copula::IMPL, &a, &b)), "<a ==> b>");
    assert_eq!(convTermToStr(&s(Copula::EQUIV, &a, &b)), "<a <=> b>");
    assert_eq!(convTermToStr(&term_api::seq(&vec![a.clone(), b.clone()])), "( a , b )");
    assert_eq!(convTermToStr(&Term::SetInt(vec![Box::new(a.clone()), Box::new(b.clone())])), "[a b]");
    assert_eq!(convTermToStr(&Term::SetExt(vec![Box::new(a.clone()), Box::new(b.clone())])), "{a b}");
    assert_eq!(convTermToStr(&Term::QVar("x".to_string())), "?x");
    assert_eq!(convTermToStr(&Term::DepVar("x".to_string())), "#x");
    assert_eq!(convTermToStr(&Term::IndepVar("x".to_string())), "$x");
    assert_eq!(convTermToStr(&conj(&vec![a.clone(), b.clone()])), "( a && b )");
    assert_eq!(convTermToStr(&p2(&a, &b)), "( a * b )");
    assert_eq!(convTermToStr(&Term::Img(Box::new(name("r")), 1, vec![Box::new(a.clone()), Box::new(b.clone())])), "( r /2 a b )");
    assert_eq!(convTermToStr(&Term::IntInt(vec![Box::new(a.clone()), Box::new(b.clone())])), "( a | b )");
    assert_eq!(convTermToStr(&Term::ExtInt(vec![Box::new(a.clone()), Box::new(b.clone())])), "( a & b )");
    assert_eq!(convTermToStr(&Term::Par(vec![Box::new(a.clone()), Box::new(b.clone())])), "( a ; b )");
    assert_eq!(convTermToStr(&Term::Neg(Box::new(a.clone()))), "(! a )");
}

#[test]
fn builders_make_the_compound() {
    let a = name("a");
    let b = name("b");
    let c = name("c");
    assert_eq!(convTermToStr(&p3(&a, &b, &c)), "( a * b * c )");
    assert_eq!(convTermToStr(&p(&vec![a.clone(), b.clone(), c.clone()])), "( a * b * c )");
    assert!(checkEqTerm(&p(&vec![a.clone(), b.clone()]), &p2(&a, &b)));
    assert_eq!(convTermToStr(&term_api::seq(&vec![a.clone()])), "( a )");
}

#[test]
fn equality_of_terms() {
    let t1 = inh(name("a"), p2(&name("b"), &name("c")));
    let t2 = inh(name("a"), p2(&name("b"), &name("c")));
    let t3 = inh(name("a"), p2(&name("c"), &name("b")));
    assert!(checkEqTerm(&t1, &t2));
    assert!(checkEqTerm(&t1, &t1));
    assert!(!checkEqTerm(&t1, &t3));
    assert!(!checkEqTerm(&name("a"), &Term::QVar("a".to_string())));
    assert!(!checkEqTerm(&Term::DepVar("a".to_string()), &Term::IndepVar("a".to_string())));
    let clone = t1.clone();
    assert!(checkEqTerm(&clone, &t1));
}

#[test]
fn complexity_counts_names_and_statements() {
    assert_eq!(calcComplexity(&name("a")), 1);
    assert_eq!(calcComplexity(&inh(name("a"), name("b"))), 3);
    // a product adds nothing for itself
    assert_eq!(calcComplexity(&p2(&name("a"), &name("b"))), 2);
    assert_eq!(calcComplexity(&inh(p2(&name("a"), &name("b")), name("c"))), 4);
    assert_eq!(calcComplexity(&Term::Neg(Box::new(name("a")))), 2);
    assert_eq!(calcComplexity(&Term::Img(Box::new(name("r")), 0, vec![Box::new(name("a"))])), 2);
    assert_eq!(calcComplexity(&Term::QVar("x".to_string())), 1);
}

#[test]
fn subterms_in_pre_order() {
    let t = inh(p2(&name("a"), &name("b")), name("a"));
    assert_eq!(strs(&retSubterms(&t)), vec!["<( a * b ) --> a>", "( a * b )", "a", "b", "a"]);
    let img = Term::Img(Box::new(name("r")), 0, vec![Box::new(name("x"))]);
    assert_eq!(strs(&retSubterms(&img)), vec!["( r /1 x )", "x", "r"]);
}

#[test]
fn unique_subterms_once_each() {
    let t = inh(p2(&name("a"), &name("b")), name("a"));
    let unique = retUniqueSubterms(&t);
    assert_eq!(strs(&unique), vec!["<( a * b ) --> a>", "( a * b )", "a", "b"]);
    // each subterm once, the term itself first
    assert!(checkEqTerm(&unique[0], &t));
    for i in 0..unique.len() {
        for j in 0..unique.len() {
            if i != j {
                assert!(!checkEqTerm(&unique[i], &unique[j]));
            }
        }
    }
    for sub in retSubterms(&t) {
        assert!(unique.iter().any(|u| checkEqTerm(u, &sub)));
    }
}

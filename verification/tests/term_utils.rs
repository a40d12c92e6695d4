use nar20_1::term::{convTermToStr, Copula, Term};
use nar20_1::term_utils::{decodeOp, encodeOp};

fn name(n: &str) -> Term {
    Term::Name(n.to_string())
}

#[test]
fn encode_then_decode_op() {
    let args = vec![Term::SetExt(vec![Box::new(name("SELF"))]), name("x")];
    let op = encodeOp(&args, &"^go".to_string());
    assert_eq!(convTermToStr(&op), "<{( {SELF} * x )} --> ^go>");
    let (args2, name2) = decodeOp(&op).unwrap();
    assert_eq!(name2, "^go");
    assert_eq!(args2.len(), 2);
    assert_eq!(convTermToStr(&args2[0]), "{SELF}");
    assert_eq!(convTermToStr(&args2[1]), "x");
}

#[test]
fn decode_rejects_other_terms() {
    assert!(decodeOp(&name("a")).is_none());
    // not a set around the product
    let t = Term::Stmt(Copula::INH, Box::new(Term::Prod(vec![Box::new(name("a"))])), Box::new(name("^op")));
    assert!(decodeOp(&t).is_none());
    // a product without arguments
    let t = Term::Stmt(Copula::INH, Box::new(Term::SetExt(vec![Box::new(Term::Prod(vec![]))])), Box::new(name("^op")));
    assert!(decodeOp(&t).is_none());
    // the predicate is no name
    let t = Term::Stmt(Copula::INH, Box::new(Term::SetExt(vec![Box::new(Term::Prod(vec![Box::new(name("a"))]))])), Box::new(Term::QVar("x".to_string())));
    assert!(decodeOp(&t).is_none());
    // other copula
    let t = Term::Stmt(Copula::SIM, Box::new(Term::SetExt(vec![Box::new(Term::Prod(vec![Box::new(name("a"))]))])), Box::new(name("^op")));
    assert!(decodeOp(&t).is_none());
}

use nar20_1::nar_unify::{unify, unifySubst, Asgnment};
use nar20_1::term::{checkEqTerm, convTermToStr, Copula, Term};
use nar20_1::term_api::p2;

fn name(n: &str) -> Term {
    Term::Name(n.to_string())
}

fn var(n: &str) -> Term {
    Term::IndepVar(n.to_string())
}

fn inh(a: Term, b: Term) -> Term {
    Term::Stmt(Copula::INH, Box::new(a), Box::new(b))
}

#[test]
fn unify_assigns_a_variable() {
    let pattern = inh(var("x"), name("b"));
    let target = inh(name("a"), name("b"));
    let asg = unify(&pattern, &target).unwrap();
    assert_eq!(asg.len(), 1);
    assert_eq!(convTermToStr(&asg[0].var), "$x");
    assert_eq!(convTermToStr(&asg[0].val), "a");
    // substituting the assignments into the pattern gives the target
    assert!(checkEqTerm(&unifySubst(&pattern, &asg), &target));
}

#[test]
fn unify_same_variable_twice() {
    let pattern = inh(var("x"), var("x"));
    assert!(unify(&pattern, &inh(name("a"), name("a"))).is_some());
    assert!(unify(&pattern, &inh(name("a"), name("b"))).is_none());
}

#[test]
fn unify_fails_on_other_shapes() {
    assert!(unify(&inh(var("x"), name("b")), &inh(name("a"), name("c"))).is_none());
    assert!(unify(&inh(var("x"), name("b")), &Term::Stmt(Copula::SIM, Box::new(name("a")), Box::new(name("b")))).is_none());
    // a variable is never assigned a variable
    assert!(unify(&var("x"), &var("y")).is_none());
    assert!(unify(&p2(&var("x"), &name("b")), &Term::Prod(vec![Box::new(name("a"))])).is_none());
}

#[test]
fn ground_term_unifies_with_itself_without_assignments() {
    let t = inh(p2(&name("a"), &name("b")), Term::Neg(Box::new(name("c"))));
    let asg = unify(&t, &t).unwrap();
    assert_eq!(asg.len(), 0);
}

#[test]
fn substituting_nothing_keeps_the_term() {
    let t = inh(var("x"), p2(&var("y"), &name("b")));
    let none: Vec<Asgnment> = vec![];
    assert!(checkEqTerm(&unifySubst(&t, &none), &t));
}

#[test]
fn substitution_replaces_every_occurrence() {
    let t = inh(var("x"), p2(&var("x"), &var("y")));
    let asg = vec![Asgnment { var: var("x"), val: name("a") }];
    assert_eq!(convTermToStr(&unifySubst(&t, &asg)), "<a --> ( a * $y )>");
}

#[test]
fn unify_finds_an_instance() {
    // <a --> (b * a)> is the instance of <$x --> ($y * $x)> for x = a, y = b
    let pattern = inh(var("x"), p2(&var("y"), &var("x")));
    let instance = inh(name("a"), p2(&name("b"), &name("a")));
    let asg = unify(&pattern, &instance).unwrap();
    assert_eq!(asg.len(), 2);
    assert!(checkEqTerm(&unifySubst(&pattern, &asg), &instance));
    // not an instance: x would need two values
    assert!(unify(&pattern, &inh(name("a"), p2(&name("b"), &name("c")))).is_none());
}

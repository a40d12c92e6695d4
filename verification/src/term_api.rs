//! Functions that build terms from their parts.

use vstd::prelude::*;
use crate::term::{Term, TermV, Copula, ListKind, terms_view, box_all};

verus! {

/// create product of two terms
pub fn p2(a: &Term, b: &Term) -> (res: Term)
    ensures
        res@ == TermV::List(ListKind::Prod, seq![a@, b@]),
{
    let arr = vec![Box::new(a.clone()), Box::new(b.clone())];
    proof {
        crate::term::lemma_view_list_ext(arr@, seq![a@, b@]);
    }
    Term::Prod(arr)
}

/// create product of three terms
pub fn p3(a: &Term, b: &Term, c: &Term) -> (res: Term)
    ensures
        res@ == TermV::List(ListKind::Prod, seq![a@, b@, c@]),
{
    let arr = vec![Box::new(a.clone()), Box::new(b.clone()), Box::new(c.clone())];
    proof {
        crate::term::lemma_view_list_ext(arr@, seq![a@, b@, c@]);
    }
    Term::Prod(arr)
}

/// create product with subterms
pub fn p(ts: &Vec<Term>) -> (res: Term)
    ensures
        res@ == TermV::List(ListKind::Prod, terms_view(ts@)),
{
    Term::Prod(box_all(ts))
}

/// create statement
pub fn s(copula: Copula, subj: &Term, pred: &Term) -> (res: Term)
    ensures
        res@ == TermV::Stmt(copula, Box::new(subj@), Box::new(pred@)),
{
    Term::Stmt(copula, Box::new(subj.clone()), Box::new(pred.clone()))
}

/// create sequence
pub fn seq(ts: &Vec<Term>) -> (res: Term)
    ensures
        res@ == TermV::List(ListKind::Sequence, terms_view(ts@)),
{
    Term::Sequence(box_all(ts))
}

/// create conjunction
pub fn conj(ts: &Vec<Term>) -> (res: Term)
    ensures
        res@ == TermV::List(ListKind::Conj, terms_view(ts@)),
{
    Term::Conj(box_all(ts))
}

} // verus!

//! Components of perception: which events are ops, and the terms inside a
//! term.

use vstd::prelude::*;
use crate::term::{Term, TermV, retSubterms, subterms, terms_view};

verus! {

/// an event of perception: whether it is an op, its term and its time
pub struct SentenceDummy {
    pub isOp: bool,
    pub term: Term,
    pub t: i64,
}

/// map if the sentence is a op
pub fn mapArrSentencesByOp(sentences: &Vec<SentenceDummy>) -> (res: Vec<bool>)
    ensures
        res@ == sentences@.map_values(|s: SentenceDummy| s.isOp),
{
    let mut res: Vec<bool> = Vec::new();
    let mut i: usize = 0;
    while i < sentences.len()
        invariant
            i <= sentences.len(),
            res@ == sentences@.map_values(|s: SentenceDummy| s.isOp).take(i as int),
        decreases sentences.len() - i,
    {
        res.push(sentences[i].isOp);
        i += 1;
        assert(res@ =~= sentences@.map_values(|s: SentenceDummy| s.isOp).take(i as int));
    }
    assert(sentences@.map_values(|s: SentenceDummy| s.isOp).take(i as int) =~= sentences@.map_values(|s: SentenceDummy| s.isOp));
    res
}

/// enumerate terms inside term: the term, then the terms inside each of its
/// parts, in order; duplicates stay
pub fn termEnum(t: &Term) -> (res: Vec<Term>)
    ensures
        terms_view(res@) == subterms(t@),
{
    retSubterms(t)
}

/// implication with exponential horizon, for testing
pub struct Impl2 {
    /// direction for pong
    pub dir: i64,
    /// positive evidence
    pub eviPos: i64,
    /// count of evidence
    pub eviCnt: i64,
    /// exponential deadline "index": a higher value stands for an
    /// exponentially later deadline
    pub expT: i64,
}

} // verus!

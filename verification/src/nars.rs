//! Term helpers of the first procedural reasoner.

use vstd::prelude::*;
use crate::term::{Term, TermV, Copula, convTermToStr, printable, term_str};
use crate::nar_proc::{is_pred_impl, impl_subj, impl_pred, is_seq_longer, seq_elem, min_table_idx};

verus! {

/// return predicate of impl seq
pub fn retPred(term: &Term) -> (res: Term)
    requires
        is_pred_impl(term@),
    ensures
        res@ == impl_pred(term@),
{
    crate::nar_proc::retPred(term)
}

/// the operation of `<(cond, op) =/> pred>`
pub fn retSeqOp(term: &Term) -> (res: Term)
    requires
        is_pred_impl(term@),
        is_seq_longer(impl_subj(term@), 1),
    ensures
        res@ == seq_elem(impl_subj(term@), 1),
{
    crate::nar_proc::retImplSeqOp(term)
}

/// the condition of `<(cond, op) =/> pred>`
pub fn retSeqCond(term: &Term) -> (res: Term)
    requires
        is_pred_impl(term@),
        is_seq_longer(impl_subj(term@), 0),
    ensures
        res@ == seq_elem(impl_subj(term@), 0),
{
    crate::nar_proc::retSeqCond(term)
}

/// event
/// string and evidence
/// (emulation of sentence and term)
pub struct SimpleSentence {
    pub name: Term,
    /// evidence id
    pub evi: i64,
    /// occurcence time
    pub occT: i64,
}

/// the event names an operation: its text starts with `^`
pub open spec fn is_op_event(t: TermV) -> bool {
    term_str(t)[0] == '^'
}

/// the indices below `n` of the events that name an operation
pub open spec fn op_indices(trace: Seq<SimpleSentence>, n: int) -> Seq<i64>
    decreases n,
{
    if n <= 0 {
        Seq::empty()
    } else if is_op_event(trace[n - 1].name@) {
        op_indices(trace, n - 1).push((n - 1) as i64)
    } else {
        op_indices(trace, n - 1)
    }
}

/// helper to return indices of events with ops
pub fn calcIdxsOfOps(trace: &Vec<SimpleSentence>) -> (res: Vec<i64>)
    requires
        trace.len() <= i64::MAX,
        forall|i: int| 0 <= i < trace.len() ==> printable(#[trigger] trace@[i].name@) && term_str(trace@[i].name@).len() > 0,
    ensures
        res@ == op_indices(trace@, trace.len() as int),
{
    let mut res: Vec<i64> = Vec::new();
    let mut idx: usize = 0;
    while idx < trace.len()
        invariant
            idx <= trace.len(),
            trace.len() <= i64::MAX,
            forall|i: int| 0 <= i < trace.len() ==> printable(#[trigger] trace@[i].name@) && term_str(trace@[i].name@).len() > 0,
            res@ == op_indices(trace@, idx as int),
        decreases trace.len() - idx,
    {
        let text = convTermToStr(&trace[idx].name);
        assert(printable(trace@[idx as int].name@));
        if text.as_str().get_char(0) == '^' { // is it a op?
            res.push(idx as i64);
        }
        idx += 1;
    }
    res
}

/// helper to find the minimal index of the exponential interval table
pub fn findMinTableIdx(interval: i64, expIntervalsTable: &Vec<i64>) -> (res: i64)
    requires
        expIntervalsTable.len() <= i64::MAX,
    ensures
        res == min_table_idx(interval, expIntervalsTable@, 1),
{
    crate::nar_proc::findMinTableIdx(interval, expIntervalsTable)
}

} // verus!

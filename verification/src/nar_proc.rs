//! Term helpers of the procedural reasoner: parts of predictive implications
//! and sequences, operator calls and the exponential interval table.

use vstd::prelude::*;
use crate::term::{Term, TermV, Copula, ListKind, terms_view, checkEqTerm};
use crate::text::str_eq;

verus! {

/// `<subj =/> pred>`
pub open spec fn is_pred_impl(t: TermV) -> bool {
    t matches TermV::Stmt(Copula::PREDIMPL, _, _)
}

/// subject of a predictive implication
pub open spec fn impl_subj(t: TermV) -> TermV
    recommends
        is_pred_impl(t),
{
    match t {
        TermV::Stmt(_, s, _) => *s,
        _ => t,
    }
}

/// predicate of a predictive implication
pub open spec fn impl_pred(t: TermV) -> TermV
    recommends
        is_pred_impl(t),
{
    match t {
        TermV::Stmt(_, _, p) => *p,
        _ => t,
    }
}

/// a sequence with more than `i` elements
pub open spec fn is_seq_longer(t: TermV, i: int) -> bool {
    t matches TermV::List(ListKind::Sequence, l) && l.len() > i
}

/// element `i` of a sequence
pub open spec fn seq_elem(t: TermV, i: int) -> TermV {
    match t {
        TermV::List(_, l) => l[i],
        _ => t,
    }
}

/// return predicate of impl seq
pub fn retPred(term: &Term) -> (res: Term)
    requires
        is_pred_impl(term@),
    ensures
        res@ == impl_pred(term@),
{
    match term {
        Term::Stmt(Copula::PREDIMPL, _subj, pred) => (**pred).clone(),
        _ => {
            proof {
                assert(false);
            }
            term.clone()
        },
    }
}

/// return subject of impl seq
pub fn retSubj(term: &Term) -> (res: Term)
    requires
        is_pred_impl(term@),
    ensures
        res@ == impl_subj(term@),
{
    match term {
        Term::Stmt(Copula::PREDIMPL, subj, _pred) => (**subj).clone(),
        _ => {
            proof {
                assert(false);
            }
            term.clone()
        },
    }
}

/// element `i` of a sequence term
fn seq_at(term: &Term, i: usize) -> (res: Term)
    requires
        is_seq_longer(term@, i as int),
    ensures
        res@ == seq_elem(term@, i as int),
{
    match term {
        Term::Sequence(seq) => {
            proof {
                crate::term::lemma_view_list(seq@);
            }
            (*seq[i]).clone()
        },
        _ => {
            proof {
                assert(false);
            }
            term.clone()
        },
    }
}

/// the operation of `<(cond, op) =/> pred>`
pub fn retImplSeqOp(term: &Term) -> (res: Term)
    requires
        is_pred_impl(term@),
        is_seq_longer(impl_subj(term@), 1),
    ensures
        res@ == seq_elem(impl_subj(term@), 1),
{
    match term {
        Term::Stmt(Copula::PREDIMPL, subj, _pred) => seq_at(subj, 1),
        _ => {
            proof {
                assert(false);
            }
            term.clone()
        },
    }
}

/// the operation of the sequence `(cond, op)`
pub fn retSeqOp(term: &Term) -> (res: Term)
    requires
        is_seq_longer(term@, 1),
    ensures
        res@ == seq_elem(term@, 1),
{
    seq_at(term, 1)
}

/// the condition of `<(cond, op) =/> pred>`
pub fn retSeqCond(term: &Term) -> (res: Term)
    requires
        is_pred_impl(term@),
        is_seq_longer(impl_subj(term@), 0),
    ensures
        res@ == seq_elem(impl_subj(term@), 0),
{
    match term {
        Term::Stmt(Copula::PREDIMPL, subj, _pred) => seq_at(subj, 0),
        _ => {
            proof {
                assert(false);
            }
            term.clone()
        },
    }
}

/// decodes a operator into the arguments and name
/// returns None if the term can't be decoded
/// expects term to be <{(arg0 * arg1 * ...)} --> ^opname>
pub fn decodeOp(term: &Term) -> (res: Option<(Vec<Term>, String)>)
    ensures
        res is Some <==> crate::term_utils::decode_op(term@) is Some,
        res matches Some((args, name)) ==> crate::term_utils::decode_op(term@) == Some((terms_view(args@), name@)),
{
    crate::term_utils::decodeOp(term)
}

/// encode op, used to get called from external code
pub fn encodeOp(args: &Vec<Term>, name: &String) -> (res: Term)
    ensures
        res@ == crate::term_utils::encode_op(terms_view(args@), name@),
{
    crate::term_utils::encodeOp(args, name)
}

/// event
/// string and evidence
/// (emulation of sentence and term)
pub struct SimpleSentence {
    pub name: Term,
    /// evidence id
    pub evi: i64,
    /// occurcence time
    pub occT: i64,
}

/// the index before the first entry, from index 1 on, that is greater than
/// `interval`; the last index where there is none
pub open spec fn min_table_idx(interval: i64, table: Seq<i64>, idx: int) -> int
    decreases table.len() - idx,
{
    if idx >= table.len() {
        table.len() - 1
    } else if table[idx] > interval {
        idx - 1
    } else {
        min_table_idx(interval, table, idx + 1)
    }
}

/// helper to find the minimal index of the exponential interval table
pub fn findMinTableIdx(interval: i64, expIntervalsTable: &Vec<i64>) -> (res: i64)
    requires
        expIntervalsTable.len() <= i64::MAX,
    ensures
        res == min_table_idx(interval, expIntervalsTable@, 1),
{
    let mut idx: usize = 1;
    while idx < expIntervalsTable.len()
        invariant
            1 <= idx,
            expIntervalsTable.len() <= i64::MAX,
            min_table_idx(interval, expIntervalsTable@, idx as int) == min_table_idx(interval, expIntervalsTable@, 1),
        decreases expIntervalsTable.len() - idx,
    {
        if expIntervalsTable[idx] > interval {
            return idx as i64 - 1;
        }
        idx += 1;
    }
    return expIntervalsTable.len() as i64 - 1;
}

/// names as texts
pub open spec fn names_view(v: Seq<String>) -> Seq<Seq<char>> {
    v.map_values(|s: String| s@)
}

/// the term is a call of an operator whose name is among `names`
pub open spec fn callable(names: Seq<Seq<char>>, t: TermV) -> bool {
    match crate::term_utils::decode_op(t) {
        Some((_, n)) => names.contains(n),
        None => false,
    }
}

/// is the term a op which can be called: a call of one of the operators
/// whose names are given
pub fn checkIsCallableOp(opNames: &Vec<String>, term: &Term) -> (res: bool)
    ensures
        res == callable(names_view(opNames@), term@),
{
    let opArgsAndNameOpt: Option<(Vec<Term>, String)> = decodeOp(term);
    match opArgsAndNameOpt {
        None => false, // isn't callable because it isn't
        Some((_opArgs, opName)) => {
            assert(crate::term_utils::decode_op(term@) == Some((terms_view(_opArgs@), opName@)));
            // the first argument is not required to be {SELF}
            let mut i: usize = 0;
            while i < opNames.len()
                invariant
                    i <= opNames.len(),
                    crate::term_utils::decode_op(term@) == Some((terms_view(_opArgs@), opName@)),
                    forall|j: int| 0 <= j < i ==> opNames@[j]@ != opName@,
                decreases opNames.len() - i,
            {
                let eq = str_eq(opNames[i].as_str(), opName.as_str());
                if eq {
                    assert(opNames@[i as int]@ == opName@);
                    assert(names_view(opNames@)[i as int] == opName@);
                    assert(names_view(opNames@).contains(opName@));
                    return true;
                }
                i += 1;
            }
            proof {
                if names_view(opNames@).contains(opName@) {
                    let j = choose|j: int| 0 <= j < names_view(opNames@).len() && names_view(opNames@)[j] == opName@;
                    assert(opNames@[j]@ == opName@);
                }
            }
            false
        },
    }
}

/// the implication `(e0, ..., e(n-2)) =/> e(n-1)` built from events, where
/// the events between the first and the last are calls of the operators,
/// the first and the last are not, and the first differs from the last
pub open spec fn spec_try_build_impl_seq(names: Seq<Seq<char>>, ev: Seq<TermV>) -> Option<TermV> {
    let n = ev.len() as int;
    if (forall|i: int| 1 <= i < n - 1 ==> #[trigger] callable(names, ev[i]))
        && !callable(names, ev[0])
        && !callable(names, ev[n - 1])
        && ev[0] != ev[n - 1]
    {
        Some(TermV::Stmt(Copula::PREDIMPL, Box::new(TermV::List(ListKind::Sequence, ev.subrange(0, n - 1))), Box::new(ev[n - 1])))
    } else {
        None
    }
}

/// helper which tries to build a impl seq out of events
/// ex: [a, b, c]  returns (a, b) =/> c
pub fn try_build_implSeq(opNames: &Vec<String>, events: &[Term]) -> (res: Option<Term>)
    requires
        events@.len() >= 3,
    ensures
        match (res, spec_try_build_impl_seq(names_view(opNames@), terms_view(events@))) {
            (Some(t), Some(vt)) => t@ == vt,
            (None, None) => true,
            _ => false,
        },
{
    let n = events.len();
    let ghost ev = terms_view(events@);
    let ghost names = names_view(opNames@);
    // middle must be callable ops
    let mut allCallable = true;
    let mut i: usize = 1;
    while i < n - 1
        invariant
            n == events@.len(),
            n >= 3,
            ev == terms_view(events@),
            names == names_view(opNames@),
            1 <= i <= n - 1,
            allCallable == (forall|j: int| 1 <= j < i ==> #[trigger] callable(names, ev[j])),
        decreases n - 1 - i,
    {
        let c = checkIsCallableOp(opNames, &events[i]);
        proof {
            assert(ev[i as int] == events@[i as int]@);
            if allCallable && c {
                assert forall|j: int| 1 <= j < i + 1 implies #[trigger] callable(names, ev[j]) by {
                    if j == i {
                    }
                }
            }
            if !c {
                assert(!callable(names, ev[i as int]));
            }
        }
        allCallable = allCallable && c;
        i += 1;
    }
    if allCallable
        && !checkIsCallableOp(opNames, &events[0]) // first and last must not be op
        && !checkIsCallableOp(opNames, &events[n - 1])
        && !checkEqTerm(&events[0], &events[n - 1]) // first and last event must not be the same
    {
        let mut seq2: Vec<Term> = Vec::new();
        let mut k: usize = 0;
        while k < n - 1
            invariant
                n == events@.len(),
                n >= 3,
                ev == terms_view(events@),
                k <= n - 1,
                terms_view(seq2@) == ev.subrange(0, k as int),
            decreases n - 1 - k,
        {
            let ghost prev = seq2@;
            seq2.push(events[k].clone());
            assert(terms_view(seq2@) =~= terms_view(prev).push(seq2@[k as int]@));
            assert(ev.subrange(0, k + 1) =~= ev.subrange(0, k as int).push(ev[k as int]));
            k += 1;
        }
        let implSeq = crate::term_api::s(Copula::PREDIMPL, &crate::term_api::seq(&seq2), &events[n - 1]);
        assert(ev[n - 1] == events@[n - 1]@);
        assert(ev[0] == events@[0]@);
        return Some(implSeq);
    }
    proof {
        assert(ev[n - 1] == events@[n - 1]@);
        assert(ev[0] == events@[0]@);
    }
    None
}

// ---------------------------------------------------------------------------
// anticipations

/// an anticipated event: the event that a piece of evidence predicts, the
/// cycle by which it is due, and the id of that evidence
pub struct Anticipation {
    /// the predicted event
    pub pred: Term,
    /// deadline in absolute cycles
    pub deadline: i64,
    /// id of the evidence whose prediction it is
    pub eviId: i64,
}

/// the model of an anticipation
pub open spec fn anticipation_view(a: Anticipation) -> (TermV, i64, i64) {
    (a.pred@, a.deadline, a.eviId)
}

/// models of anticipations
pub open spec fn anticipations_view(v: Seq<Anticipation>) -> Seq<(TermV, i64, i64)> {
    v.map_values(|a: Anticipation| anticipation_view(a))
}

/// the predicted event is among the last `window` events of the trace
pub open spec fn confirmed(pred: TermV, trace: Seq<TermV>, window: int) -> bool {
    exists|p: int| 0 <= p < window && p < trace.len() && #[trigger] trace[trace.len() - 1 - p] == pred
}

/// the anticipations that stay: not confirmed, and not yet due
pub open spec fn kept_anticipations(ants: Seq<(TermV, i64, i64)>, trace: Seq<TermV>, window: int, t: i64) -> Seq<(TermV, i64, i64)>
    decreases ants.len(),
{
    if ants.len() == 0 {
        Seq::empty()
    } else {
        let rest = kept_anticipations(ants.drop_last(), trace, window, t);
        let a = ants.last();
        if !confirmed(a.0, trace, window) && a.1 > t { rest.push(a) } else { rest }
    }
}

/// the evidence of the anticipations that were not confirmed and are due:
/// each gets one more piece of negative evidence
pub open spec fn violated_evidence(ants: Seq<(TermV, i64, i64)>, trace: Seq<TermV>, window: int, t: i64) -> Seq<i64>
    decreases ants.len(),
{
    if ants.len() == 0 {
        Seq::empty()
    } else {
        let rest = violated_evidence(ants.drop_last(), trace, window, t);
        let a = ants.last();
        if !confirmed(a.0, trace, window) && a.1 <= t { rest.push(a.2) } else { rest }
    }
}

/// is the predicted event among the last `window` events of the trace?
fn is_confirmed(pred: &Term, trace: &Vec<SimpleSentence>, window: i64) -> (r: bool)
    ensures
        r == confirmed(pred@, trace@.map_values(|e: SimpleSentence| e.name@), window as int),
{
    let ghost tr = trace@.map_values(|e: SimpleSentence| e.name@);
    let mut p: usize = 0;
    while window > 0 && (p as u64) < (window as u64) && p < trace.len()
        invariant
            tr == trace@.map_values(|e: SimpleSentence| e.name@),
            p <= trace.len(),
            forall|q: int| 0 <= q < p ==> #[trigger] tr[tr.len() - 1 - q] != pred@,
        decreases trace.len() - p,
    {
        if checkEqTerm(&trace[trace.len() - 1 - p].name, pred) {
            assert(tr[tr.len() - 1 - p] == pred@);
            assert(0 <= p < window && p < tr.len());
            return true;
        }
        p += 1;
    }
    proof {
        if confirmed(pred@, tr, window as int) {
            let q = choose|q: int| 0 <= q < window && q < tr.len() && #[trigger] tr[tr.len() - 1 - q] == pred@;
            assert(q < p || q >= p);
        }
    }
    false
}

/// one step of the anticipations: those whose predicted event is among the
/// last `perceptWindow` events are confirmed and dropped; of the others,
/// those due by `t` are dropped and their evidence is returned, to get one
/// more piece of negative evidence each; the rest stays
pub fn anticipation_step(anticipated: &Vec<Anticipation>, trace: &Vec<SimpleSentence>, perceptWindow: i64, t: i64) -> (res: (Vec<Anticipation>, Vec<i64>))
    ensures
        anticipations_view(res.0@) == kept_anticipations(anticipations_view(anticipated@), trace@.map_values(|e: SimpleSentence| e.name@), perceptWindow as int, t),
        res.1@ == violated_evidence(anticipations_view(anticipated@), trace@.map_values(|e: SimpleSentence| e.name@), perceptWindow as int, t),
{
    let ghost tr = trace@.map_values(|e: SimpleSentence| e.name@);
    let ghost av = anticipations_view(anticipated@);
    let mut kept: Vec<Anticipation> = Vec::new();
    let mut violated: Vec<i64> = Vec::new();
    let mut i: usize = 0;
    assert(av.take(0) =~= Seq::<(TermV, i64, i64)>::empty());
    while i < anticipated.len()
        invariant
            tr == trace@.map_values(|e: SimpleSentence| e.name@),
            av == anticipations_view(anticipated@),
            i <= anticipated.len(),
            anticipations_view(kept@) == kept_anticipations(av.take(i as int), tr, perceptWindow as int, t),
            violated@ == violated_evidence(av.take(i as int), tr, perceptWindow as int, t),
        decreases anticipated.len() - i,
    {
        let a = &anticipated[i];
        let c = is_confirmed(&a.pred, trace, perceptWindow);
        proof {
            assert(av.take(i + 1).drop_last() =~= av.take(i as int));
            assert(av.take(i + 1).last() == anticipation_view(anticipated@[i as int]));
        }
        if !c {
            if a.deadline > t {
                let ghost before = kept@;
                let k = Anticipation { pred: a.pred.clone(), deadline: a.deadline, eviId: a.eviId };
                kept.push(k);
                assert(anticipations_view(kept@) =~= anticipations_view(before).push(anticipation_view(k)));
            } else {
                violated.push(a.eviId);
            }
        }
        i += 1;
    }
    assert(av.take(anticipated.len() as int) =~= av);
    (kept, violated)
}

/// the interval index an evidence gives: its own, or the default 0
pub open spec fn interval_idx(expDt: Option<i64>) -> int {
    match expDt {
        Some(d) => d as int,
        None => 0,
    }
}

/// the decision to enact the op of `(cond, op)` that the best evidence
/// gives: the op is picked where it decodes as an op call; then the event
/// the evidence predicts is anticipated by `t` plus the interval of the
/// table at the evidence's interval index (where anticipation is on)
pub fn enact_decision(
    unifiedSeq: &Term,
    predicted: &Term,
    eviId: i64,
    expDt: Option<i64>,
    expIntervalsTable: &Vec<i64>,
    t: i64,
    enAnticipation: bool,
) -> (res: Option<(Term, Option<Anticipation>)>)
    requires
        is_seq_longer(unifiedSeq@, 1),
        crate::term_utils::decode_op(seq_elem(unifiedSeq@, 1)) is Some ==> {
            &&& 0 <= interval_idx(expDt) < expIntervalsTable@.len()
            &&& i64::MIN <= t + expIntervalsTable@[interval_idx(expDt)] <= i64::MAX
        },
    ensures
        match res {
            None => crate::term_utils::decode_op(seq_elem(unifiedSeq@, 1)) is None,
            Some((op, ant)) => {
                &&& crate::term_utils::decode_op(seq_elem(unifiedSeq@, 1)) is Some
                &&& op@ == seq_elem(unifiedSeq@, 1)
                &&& match ant {
                    Some(a) => enAnticipation && a.pred@ == predicted@ && a.eviId == eviId
                        && a.deadline == t + expIntervalsTable@[interval_idx(expDt)],
                    None => !enAnticipation,
                }
            },
        },
{
    // extract op of seq
    let opTerm: Term = retSeqOp(unifiedSeq);
    // try to decode op into args and name
    let decodedOpOpt: Option<(Vec<Term>, String)> = decodeOp(&opTerm);
    match decodedOpOpt {
        None => {
            return None; // we can only exec op if op is valid format
        },
        Some(_) => {},
    }
    assert(crate::term_utils::decode_op(seq_elem(unifiedSeq@, 1)) is Some);
    // add anticipated event
    let expIntervalIdx: i64 = match expDt {
        Some(d) => d,
        None => 0, // else it needs a default interval
    };
    assert(expIntervalIdx as int == interval_idx(expDt));
    assert(0 <= expIntervalIdx < expIntervalsTable@.len());
    let n: usize = expIntervalsTable.len();
    assert(expIntervalIdx < n);
    let ui: usize = expIntervalIdx as usize;
    assert(ui as int == expIntervalIdx as int);
    let interval: i64 = expIntervalsTable[ui];
    assert(interval == expIntervalsTable@[interval_idx(expDt)]);
    let deadline: i64 = t + interval; // compute real deadline by exponential interval
    let ant = if enAnticipation {
        Some(Anticipation { pred: predicted.clone(), deadline: deadline, eviId: eviId })
    } else {
        None
    };
    Some((opTerm, ant))
}

/// the names of the events at the drawn positions of the trace
pub open spec fn events_at(trace: Seq<SimpleSentence>, idxs: Seq<usize>) -> Seq<TermV> {
    idxs.map_values(|i: usize| trace[i as int].name@)
}

/// the time from the second last to the last drawn event
pub open spec fn last_dt(trace: Seq<SimpleSentence>, idxs: Seq<usize>) -> int {
    trace[idxs[idxs.len() - 1] as int].occT - trace[idxs[idxs.len() - 2] as int].occT
}

/// the evidence perceived from the drawn events of the trace: the
/// implication built from them, the index of the interval table for the
/// time between the last two events, and the evidence ids of the events
pub open spec fn spec_build_evidence(names: Seq<Seq<char>>, trace: Seq<SimpleSentence>, idxs: Seq<usize>, table: Seq<i64>) -> Option<(TermV, int, Seq<i64>)> {
    match spec_try_build_impl_seq(names, events_at(trace, idxs)) {
        Some(t) => Some((t, min_table_idx(last_dt(trace, idxs) as i64, table, 1), idxs.map_values(|i: usize| trace[i as int].evi))),
        None => None,
    }
}

/// builds the evidence that a step perceives from the events at the drawn
/// positions (sorted) of the trace: the implication `(e0, ops...) =/> en`,
/// the interval index of the time between the last two events, and the
/// stamp made of the events' evidence ids; `None` where no implication can
/// be built from them
pub fn build_evidence(opNames: &Vec<String>, trace: &Vec<SimpleSentence>, idxs: &Vec<usize>, expIntervalsTable: &Vec<i64>) -> (res: Option<(Term, i64, Vec<i64>)>)
    requires
        idxs@.len() >= 3,
        forall|k: int| 0 <= k < idxs@.len() ==> #[trigger] idxs@[k] < trace@.len(),
        expIntervalsTable@.len() <= i64::MAX,
        spec_try_build_impl_seq(names_view(opNames@), events_at(trace@, idxs@)) is Some ==> i64::MIN <= last_dt(trace@, idxs@) <= i64::MAX,
    ensures
        match (res, spec_build_evidence(names_view(opNames@), trace@, idxs@, expIntervalsTable@)) {
            (Some((t, expDt, ids)), Some((vt, vdt, vids))) => t@ == vt && expDt == vdt && ids@ == vids,
            (None, None) => true,
            _ => false,
        },
{
    let ghost ev = events_at(trace@, idxs@);
    let mut events: Vec<Term> = Vec::new();
    let mut ids: Vec<i64> = Vec::new();
    let mut k: usize = 0;
    while k < idxs.len()
        invariant
            k <= idxs.len(),
            forall|j: int| 0 <= j < idxs@.len() ==> #[trigger] idxs@[j] < trace@.len(),
            ev == events_at(trace@, idxs@),
            terms_view(events@) == ev.take(k as int),
            ids@ == idxs@.map_values(|i: usize| trace@[i as int].evi).take(k as int),
        decreases idxs.len() - k,
    {
        let i = idxs[k];
        assert(idxs@[k as int] < trace@.len());
        let ghost e0 = events@;
        events.push(trace[i].name.clone());
        ids.push(trace[i].evi);
        assert(terms_view(events@) =~= terms_view(e0).push(trace@[i as int].name@));
        assert(ev.take(k + 1) =~= ev.take(k as int).push(ev[k as int]));
        assert(ids@ =~= idxs@.map_values(|i: usize| trace@[i as int].evi).take(k + 1));
        k += 1;
    }
    assert(ev.take(idxs.len() as int) =~= ev);
    assert(idxs@.map_values(|i: usize| trace@[i as int].evi).take(idxs.len() as int) =~= idxs@.map_values(|i: usize| trace@[i as int].evi));
    match try_build_implSeq(opNames, events.as_slice()) {
        Some(implSeq) => {
            let n = idxs.len();
            let a = idxs[n - 1];
            let b = idxs[n - 2];
            assert(idxs@[n - 1] < trace@.len() && idxs@[n - 2] < trace@.len());
            // compute time between last event and the element before the last event
            let dt: i64 = trace[a].occT - trace[b].occT;
            // compute exponential delta time
            let expDt: i64 = findMinTableIdx(dt, expIntervalsTable);
            Some((implSeq, expDt, ids))
        },
        None => None,
    }
}

} // verus!

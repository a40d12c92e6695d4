//! Term helpers of the goal system: bridging procedural terms to questions
//! of the declarative reasoner, sub-sequences, and the matching of goals,
//! states, events and evidence.

use vstd::prelude::*;
use crate::term::{Term, TermV, VarKind, ListKind, Copula, terms_view, checkEqTerm, lemma_view_list, lemma_view_list_ext};
use crate::nar_proc::{is_pred_impl, impl_subj, impl_pred, is_seq_longer, seq_elem};
use crate::nar_unify::{unify, unifySubst, unify_rec, subst_term};

verus! {

/// the prefix that marks the kind a variable had
pub open spec fn qa_prefix(k: VarKind) -> Seq<char> {
    match k {
        VarKind::Query => "Q_"@,
        VarKind::Dep => "D_"@,
        VarKind::Indep => "I_"@,
    }
}

/// the term with each variable turned into a query variable whose name
/// records the kind it had
pub open spec fn qa_term(t: TermV) -> TermV
    decreases t,
{
    match t {
        TermV::Var(k, n) => TermV::Var(VarKind::Query, qa_prefix(k) + n),
        TermV::Stmt(c, s, p) => TermV::Stmt(c, Box::new(qa_term(*s)), Box::new(qa_term(*p))),
        TermV::Name(_) => t,
        TermV::List(k, l) => TermV::List(k, qa_list(l)),
        TermV::Img(r, i, l) => TermV::Img(Box::new(qa_term(*r)), i, qa_list(l)),
        TermV::Neg(x) => TermV::Neg(Box::new(qa_term(*x))),
    }
}

/// `qa_term` of each term of a list
pub open spec fn qa_list(l: Seq<TermV>) -> Seq<TermV>
    decreases l,
{
    if l.len() == 0 {
        Seq::empty()
    } else {
        qa_list(l.subrange(0, l.len() - 1)).push(qa_term(l[l.len() - 1]))
    }
}

/// the name of a variable with the prefix of its kind
fn prefixed(prefix: &str, name: &String) -> (res: String)
    ensures
        res@ == prefix@ + name@,
{
    let mut res = String::from_str(prefix);
    res.append(name.as_str());
    res
}

/// converts the terms of a list
fn conv_list(v: &Vec<Box<Term>>) -> (res: Vec<Box<Term>>)
    ensures
        Term::view_list(res@) == qa_list(Term::view_list(v@)),
    decreases v@,
{
    let ghost l = Term::view_list(v@);
    proof {
        lemma_view_list(v@);
        assert(qa_list(l.subrange(0, 0)) =~= Seq::<TermV>::empty());
    }
    let mut arr: Vec<Box<Term>> = Vec::new();
    let mut i: usize = 0;
    while i < v.len()
        invariant
            i <= v.len(),
            l == Term::view_list(v@),
            l.len() == v.len(),
            forall|j: int| 0 <= j < v.len() ==> l[j] == v@[j].view_term(),
            arr@.len() == i,
            qa_list(l.subrange(0, i as int)).len() == i,
            forall|j: int| 0 <= j < i ==> arr@[j].view_term() == qa_list(l.subrange(0, i as int))[j],
        decreases v.len() - i,
    {
        let x = convProcTermToQaTerm(&v[i]);
        arr.push(Box::new(x));
        proof {
            assert(l.subrange(0, i + 1).subrange(0, i as int) =~= l.subrange(0, i as int));
        }
        i += 1;
    }
    proof {
        assert(l.subrange(0, v.len() as int) =~= l);
        lemma_view_list_ext(arr@, qa_list(l));
    }
    arr
}

/// converts a term of the procedural reasoner into one for a question to the
/// declarative reasoner: each variable becomes a query variable named after
/// its kind (`Q_`, `D_` or `I_`) and its name
pub fn convProcTermToQaTerm(term: &Term) -> (res: Term)
    ensures
        res@ == qa_term(term@),
    decreases term,
{
    proof {
        reveal_strlit("Q_");
        reveal_strlit("D_");
        reveal_strlit("I_");
    }
    match term {
        Term::QVar(name) => Term::QVar(prefixed("Q_", name)),
        Term::DepVar(name) => Term::QVar(prefixed("D_", name)),
        Term::IndepVar(name) => Term::QVar(prefixed("I_", name)),
        Term::Stmt(cop, subj, pred) => {
            let s2 = convProcTermToQaTerm(subj);
            let p2 = convProcTermToQaTerm(pred);
            Term::Stmt(*cop, Box::new(s2), Box::new(p2))
        },
        Term::Name(_) => term.clone(),
        Term::Sequence(arr) => Term::Sequence(conv_list(arr)),
        Term::SetInt(arr) => Term::SetInt(conv_list(arr)),
        Term::SetExt(arr) => Term::SetExt(conv_list(arr)),
        Term::Conj(arr) => Term::Conj(conv_list(arr)),
        Term::Prod(arr) => Term::Prod(conv_list(arr)),
        Term::Img(rel, idx, arr) => {
            let rel2 = convProcTermToQaTerm(rel);
            let arr2 = conv_list(arr);
            Term::Img(Box::new(rel2), *idx, arr2)
        },
        Term::IntInt(arr) => Term::IntInt(conv_list(arr)),
        Term::ExtInt(arr) => Term::ExtInt(conv_list(arr)),
        Term::Par(arr) => Term::Par(conv_list(arr)),
        Term::Neg(t) => {
            let t2 = convProcTermToQaTerm(t);
            Term::Neg(Box::new(t2))
        },
    }
}

/// returns sub sequence as term if it has a single sub-term or as seq if it
/// has multiple (or none)
pub fn retSubSeqAsSeqOrTerm(subseq: &[Box<Term>]) -> (res: Term)
    ensures
        res@ == if subseq@.len() == 1 {
            subseq@[0].view_term()
        } else {
            TermV::List(ListKind::Sequence, Term::view_list(subseq@))
        },
{
    if subseq.len() == 1 {
        (*subseq[0]).clone()
    } else {
        let mut v: Vec<Box<Term>> = Vec::new();
        let mut i: usize = 0;
        while i < subseq.len()
            invariant
                i <= subseq@.len(),
                v@.len() == i,
                forall|j: int| 0 <= j < i ==> v@[j].view_term() == subseq@[j].view_term(),
            decreases subseq@.len() - i,
        {
            v.push(Box::new((*subseq[i]).clone()));
            i += 1;
        }
        proof {
            lemma_view_list(subseq@);
            lemma_view_list_ext(v@, Term::view_list(subseq@));
        }
        Term::Sequence(v)
    }
}

// ---------------------------------------------------------------------------
// matching of evidence and goals

/// a predictive implication whose subject is a sequence without elements,
/// whose first element the queries would read
pub open spec fn empty_seq_antecedent(t: TermV) -> bool {
    is_pred_impl(t) && (impl_subj(t) matches TermV::List(ListKind::Sequence, l) && l.len() == 0)
}

/// the belief `<(query, ...) =/> pred>` has the query as the first event of
/// its antecedent sequence
pub open spec fn antecedent_matches(query: TermV, belief: TermV) -> bool {
    is_pred_impl(belief) && is_seq_longer(impl_subj(belief), 0) && seq_elem(impl_subj(belief), 0) == query
}

/// the belief `<subj =/> query>` predicts the query
pub open spec fn consequence_matches(query: TermV, belief: TermV) -> bool {
    is_pred_impl(belief) && impl_pred(belief) == query
}

/// the positions below `n` of the beliefs whose antecedent starts with the query
pub open spec fn antecedent_positions(query: TermV, beliefs: Seq<TermV>, n: int) -> Seq<usize>
    decreases n,
{
    if n <= 0 {
        Seq::empty()
    } else if antecedent_matches(query, beliefs[n - 1]) {
        antecedent_positions(query, beliefs, n - 1).push((n - 1) as usize)
    } else {
        antecedent_positions(query, beliefs, n - 1)
    }
}

/// the positions below `n` of the beliefs that predict the query
pub open spec fn consequence_positions(query: TermV, beliefs: Seq<TermV>, n: int) -> Seq<usize>
    decreases n,
{
    if n <= 0 {
        Seq::empty()
    } else if consequence_matches(query, beliefs[n - 1]) {
        consequence_positions(query, beliefs, n - 1).push((n - 1) as usize)
    } else {
        consequence_positions(query, beliefs, n - 1)
    }
}

/// the positions below `n` of the goals that are the event
pub open spec fn equal_positions(event: TermV, goals: Seq<TermV>, n: int) -> Seq<usize>
    decreases n,
{
    if n <= 0 {
        Seq::empty()
    } else if goals[n - 1] == event {
        equal_positions(event, goals, n - 1).push((n - 1) as usize)
    } else {
        equal_positions(event, goals, n - 1)
    }
}

/// does the belief's antecedent sequence start with the query?
fn antecedent_starts_with(query: &Term, belief: &Term) -> (r: bool)
    requires
        !empty_seq_antecedent(belief@),
    ensures
        r == antecedent_matches(query@, belief@),
{
    proof {
        reveal_with_fuel(Term::view_term, 2);
    }
    match belief {
        Term::Stmt(Copula::PREDIMPL, subj, _pred) => {
            match &**subj {
                Term::Sequence(seq) => {
                    proof {
                        lemma_view_list(seq@);
                    }
                    checkEqTerm(query, &seq[0])
                },
                _ => false,
            }
        },
        _ => false,
    }
}

/// the positions of the beliefs `<(query, ...) =/> ...>`, in order: the
/// evidence whose antecedent starts with the queried event
pub fn query_by_antecedent(query: &Term, beliefs: &Vec<Term>) -> (res: Vec<usize>)
    requires
        forall|i: int| 0 <= i < beliefs@.len() ==> !empty_seq_antecedent(#[trigger] beliefs@[i]@),
    ensures
        res@ == antecedent_positions(query@, terms_view(beliefs@), beliefs@.len() as int),
{
    let ghost bv = terms_view(beliefs@);
    let mut res: Vec<usize> = Vec::new();
    let mut i: usize = 0;
    while i < beliefs.len()
        invariant
            bv == terms_view(beliefs@),
            i <= beliefs.len(),
            forall|k: int| 0 <= k < beliefs@.len() ==> !empty_seq_antecedent(#[trigger] beliefs@[k]@),
            res@ == antecedent_positions(query@, bv, i as int),
        decreases beliefs.len() - i,
    {
        assert(bv[i as int] == beliefs@[i as int]@);
        if antecedent_starts_with(query, &beliefs[i]) {
            res.push(i);
        }
        i += 1;
    }
    res
}

/// the positions of the beliefs `<... =/> query>`, in order: the evidence
/// that predicts the queried event
pub fn query_by_consequence(query: &Term, beliefs: &Vec<Term>) -> (res: Vec<usize>)
    ensures
        res@ == consequence_positions(query@, terms_view(beliefs@), beliefs@.len() as int),
{
    let ghost bv = terms_view(beliefs@);
    let mut res: Vec<usize> = Vec::new();
    let mut i: usize = 0;
    while i < beliefs.len()
        invariant
            bv == terms_view(beliefs@),
            i <= beliefs.len(),
            res@ == consequence_positions(query@, bv, i as int),
        decreases beliefs.len() - i,
    {
        assert(bv[i as int] == beliefs@[i as int]@);
        let m = match &beliefs[i] {
            Term::Stmt(Copula::PREDIMPL, _subj, pred) => checkEqTerm(query, pred),
            _ => false,
        };
        if m {
            res.push(i);
        }
        i += 1;
    }
    res
}

/// the positions of the goals that the event satisfies: those equal to it,
/// where goals may be satisfied at all; their desirability drops to zero
pub fn event_occurred(goals: &Vec<Term>, eventTerm: &Term, enGoalSatisfaction: bool) -> (res: Vec<usize>)
    ensures
        res@ == if enGoalSatisfaction { equal_positions(eventTerm@, terms_view(goals@), goals@.len() as int) } else { Seq::empty() },
{
    let ghost gv = terms_view(goals@);
    let mut res: Vec<usize> = Vec::new();
    if !enGoalSatisfaction {
        return res;
    }
    let mut i: usize = 0;
    while i < goals.len()
        invariant
            gv == terms_view(goals@),
            i <= goals.len(),
            res@ == equal_positions(eventTerm@, gv, i as int),
        decreases goals.len() - i,
    {
        assert(gv[i as int] == goals@[i as int]@);
        if checkEqTerm(&goals[i], eventTerm) {
            res.push(i);
        }
        i += 1;
    }
    res
}

/// the position of the first goal that is the event
pub fn query(goals: &Vec<Term>, eventTerm: &Term) -> (res: Option<usize>)
    ensures
        match res {
            Some(k) => k < goals@.len() && goals@[k as int]@ == eventTerm@
                && forall|j: int| 0 <= j < k ==> goals@[j]@ != eventTerm@,
            None => forall|j: int| 0 <= j < goals@.len() ==> goals@[j]@ != eventTerm@,
        },
{
    let mut i: usize = 0;
    while i < goals.len()
        invariant
            i <= goals.len(),
            forall|j: int| 0 <= j < i ==> goals@[j]@ != eventTerm@,
        decreases goals.len() - i,
    {
        if checkEqTerm(&goals[i], eventTerm) {
            return Some(i);
        }
        i += 1;
    }
    None
}

/// the events of a goal sequence before its last one: the single event, or
/// the sequence of them
pub open spec fn goal_condition(l: Seq<TermV>) -> TermV {
    if l.len() - 1 == 1 {
        l[0]
    } else {
        TermV::List(ListKind::Sequence, l.take(l.len() - 1))
    }
}

/// a goal `(c..., g)` matches the state where its events before the last
/// unify with the state: the goal with those assignments substituted
pub open spec fn spec_goal_by_state(goal: TermV, state: TermV) -> Option<TermV> {
    match goal {
        TermV::List(ListKind::Sequence, l) => if l.len() >= 1 {
            match unify_rec(goal_condition(l), state, Seq::empty()) {
                Some(asg) => Some(subst_term(goal, asg)),
                None => None,
            }
        } else {
            None
        },
        _ => None,
    }
}

/// does the goal match the observed state? the goal with the variables
/// that the state fixes substituted; `None` where it does not match
pub fn goalByState(goal: &Term, state: &Term) -> (res: Option<Term>)
    ensures
        match res {
            Some(t) => spec_goal_by_state(goal@, state@) == Some(t@),
            None => spec_goal_by_state(goal@, state@) is None,
        },
{
    match goal {
        Term::Sequence(seq) => {
            proof {
                lemma_view_list(seq@);
            }
            if seq.len() < 1 {
                return None;
            }
            let n = seq.len() - 1;
            let mut sub: Vec<Box<Term>> = Vec::new();
            let mut k: usize = 0;
            while k < n
                invariant
                    n == seq.len() - 1,
                    k <= n,
                    sub@.len() == k,
                    forall|j: int| 0 <= j < k ==> sub@[j].view_term() == seq@[j].view_term(),
                decreases n - k,
            {
                sub.push(Box::new((*seq[k]).clone()));
                k += 1;
            }
            let cond = retSubSeqAsSeqOrTerm(sub.as_slice());
            proof {
                let l = Term::view_list(seq@);
                lemma_view_list(sub@);
                assert(Term::view_list(sub@) =~= l.take(n as int));
                assert(cond@ == goal_condition(l));
            }
            // try to unify first part of sequence with observed state
            match unify(&cond, state) {
                Some(asgnmts) => Some(unifySubst(goal, &asgnmts)),
                None => None,
            }
        },
        _ => None,
    }
}

} // verus!

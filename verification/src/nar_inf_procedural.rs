//! Inference rules for procedural derivations: goal deduction, goal
//! detachment and the introduction of variables.

use vstd::prelude::*;
use crate::term::{Term, TermV, Copula, ListKind, checkEqTerm, retSubterms, subterms, terms_view, lemma_view_list, lemma_view_list_ext};
use crate::nar_sentence::EnumPunctation;
use crate::nar_stamp::{merge, checkOverlap, overlap, merged_ids};
use crate::nar_inference::Premise;

verus! {

// ---------------------------------------------------------------------------
// goals

/// the goal that deduction gives from a goal and a belief
/// `a =/> b.` and `b!` |- `a!`: its term and stamp ids; `None` where the
/// belief is no predictive implication of the goal, or the stamps overlap
pub open spec fn spec_goal_belief(goal: TermV, goalIds: Seq<i64>, belief: TermV, beliefIds: Seq<i64>) -> Option<(TermV, Seq<i64>)> {
    match belief {
        TermV::Stmt(Copula::PREDIMPL, subj, pred) => if *pred == goal && !overlap(goalIds, beliefIds) {
            Some((*subj, merged_ids(goalIds, beliefIds)))
        } else {
            None
        },
        _ => None,
    }
}

/// does inference of goal with a belief
///
/// we need to derive goals from matching implSeqs by goal deduction
/// a =/> b.
/// b!
/// |-dedGoal
/// a!
///
/// returns the derived goal; its desire is the goal deduction of the
/// desire of the goal and the truth of the belief
pub fn infGoalBelief(goal: &Premise, belief: &Premise) -> (res: Option<Premise>)
    ensures
        match (res, spec_goal_belief(goal.term@, goal.stamp.ids@, belief.term@, belief.stamp.ids@)) {
            (Some(p), Some((t, ids))) => p.term@ == t && p.stamp.ids@ == ids && p.punct == EnumPunctation::GOAL,
            (None, None) => true,
            _ => false,
        },
{
    // check if term is same and inference can be done
    match &belief.term {
        Term::Stmt(Copula::PREDIMPL, subj, pred) => {
            if !checkEqTerm(&goal.term, pred) {
                return None; // can't do inference because terms have to be equal
            }
            if checkOverlap(&goal.stamp, &belief.stamp) {
                return None; // overlap -> can't derive anything
            }
            let stamp = merge(&goal.stamp, &belief.stamp);
            Some(Premise { term: (**subj).clone(), punct: EnumPunctation::GOAL, stamp: stamp })
        },
        _ => None,
    }
}

/// goal detachment rule
///
/// ex: (a, b)! |- a!
///
/// the detached goal keeps the stamp and the desire of the premise
pub fn infGoalDetach(premise: &Premise) -> (res: Option<Premise>)
    ensures
        match premise.term@ {
            TermV::List(ListKind::Sequence, l) => if l.len() >= 1 {
                res matches Some(p) && p.term@ == l[0] && p.punct == EnumPunctation::GOAL && p.stamp.ids@ == premise.stamp.ids@
            } else {
                res is None
            },
            _ => res is None,
        },
{
    match &premise.term {
        Term::Sequence(seq) => {
            proof {
                lemma_view_list(seq@);
            }
            if seq.len() >= 1 {
                Some(Premise { term: (*seq[0]).clone(), punct: EnumPunctation::GOAL, stamp: premise.stamp.clone() })
            } else {
                None
            }
        },
        _ => None,
    }
}

// ---------------------------------------------------------------------------
// variable introduction

/// how often `repl` occurs among the subterms of `t`
pub open spec fn occurrences(t: TermV, repl: TermV) -> nat {
    subterms(t).filter(|x: TermV| x == repl).len()
}

/// the term with each occurrence of `repl` replaced by `with`; the relation
/// of an image is kept as it is
pub open spec fn replace_term(t: TermV, repl: TermV, with: TermV) -> TermV
    decreases t,
{
    if t == repl {
        with
    } else {
        match t {
            TermV::Stmt(c, s, p) => TermV::Stmt(c, Box::new(replace_term(*s, repl, with)), Box::new(replace_term(*p, repl, with))),
            TermV::List(k, l) => TermV::List(k, replace_list(l, repl, with)),
            TermV::Img(r, i, l) => TermV::Img(r, i, replace_list(l, repl, with)),
            TermV::Neg(x) => TermV::Neg(Box::new(replace_term(*x, repl, with))),
            _ => t,
        }
    }
}

/// `replace_term` in each term of a list
pub open spec fn replace_list(l: Seq<TermV>, repl: TermV, with: TermV) -> Seq<TermV>
    decreases l,
{
    if l.len() == 0 {
        Seq::empty()
    } else {
        replace_list(l.subrange(0, l.len() - 1), repl, with).push(replace_term(l[l.len() - 1], repl, with))
    }
}

/// the terms with the variable `with` introduced for `repl`: none where
/// `repl` occurs fewer than two times
pub open spec fn spec_intro_vars(t: TermV, repl: TermV, with: TermV) -> Seq<TermV> {
    if occurrences(t, repl) < 2 {
        Seq::empty()
    } else {
        seq![replace_term(t, repl, with)]
    }
}

/// variable introduction for `< (x --> [y], ...) =/> ... >`, where `x`
/// becomes the variable `with`
pub open spec fn spec_matchandintro_var1(s: TermV, with: TermV) -> Seq<TermV> {
    match s {
        TermV::Stmt(Copula::PREDIMPL, subj, _) => match *subj {
            TermV::List(ListKind::Sequence, sq) => if sq.len() == 2 {
                match sq[0] {
                    TermV::Stmt(Copula::INH, subj2, pred2) => match *pred2 {
                        TermV::List(ListKind::SetInt, _) => spec_intro_vars(s, *subj2, with),
                        _ => Seq::empty(),
                    },
                    _ => Seq::empty(),
                }
            } else {
                Seq::empty()
            },
            _ => Seq::empty(),
        },
        _ => Seq::empty(),
    }
}

/// counts how often `repl` occurs among the subterms of `t`
fn count_occurence_subterms(t: &Term, repl: &Term) -> (res: usize)
    ensures
        res == occurrences(t@, repl@),
{
    let subs = retSubterms(t);
    let ghost s = terms_view(subs@);
    let mut n: usize = 0;
    let mut i: usize = 0;
    assert(s.take(0).filter(|x: TermV| x == repl@) =~= Seq::<TermV>::empty());
    while i < subs.len()
        invariant
            s == terms_view(subs@),
            i <= subs.len(),
            n == s.take(i as int).filter(|x: TermV| x == repl@).len(),
            n <= i,
        decreases subs.len() - i,
    {
        let eq = checkEqTerm(&subs[i], repl);
        proof {
            assert(s.take(i + 1) =~= s.take(i as int).push(s[i as int]));
            s.take(i as int).lemma_filter_push(s[i as int], |x: TermV| x == repl@);
        }
        if eq {
            n += 1;
        }
        i += 1;
    }
    assert(s.take(subs.len() as int) =~= s);
    n
}

/// replaces in each term of a list
fn replace_in_list(v: &Vec<Box<Term>>, repl: &Term, with: &Term) -> (res: Vec<Box<Term>>)
    ensures
        Term::view_list(res@) == replace_list(Term::view_list(v@), repl@, with@),
    decreases v@,
{
    let ghost l = Term::view_list(v@);
    proof {
        lemma_view_list(v@);
        assert(replace_list(l.subrange(0, 0), repl@, with@) =~= Seq::<TermV>::empty());
    }
    let mut arr: Vec<Box<Term>> = Vec::new();
    let mut i: usize = 0;
    while i < v.len()
        invariant
            i <= v.len(),
            l == Term::view_list(v@),
            l.len() == v.len(),
            forall|j: int| 0 <= j < v.len() ==> l[j] == v@[j].view_term(),
            arr@.len() == i,
            replace_list(l.subrange(0, i as int), repl@, with@).len() == i,
            forall|j: int| 0 <= j < i ==> arr@[j].view_term() == replace_list(l.subrange(0, i as int), repl@, with@)[j],
        decreases v.len() - i,
    {
        let x = replace(&v[i], repl, with);
        arr.push(Box::new(x));
        proof {
            assert(l.subrange(0, i + 1).subrange(0, i as int) =~= l.subrange(0, i as int));
        }
        i += 1;
    }
    proof {
        assert(l.subrange(0, v.len() as int) =~= l);
        lemma_view_list_ext(arr@, replace_list(l, repl@, with@));
    }
    arr
}

/// helper which does the replacement
/// /param with is the term with which it will be replaced
fn replace(t: &Term, repl: &Term, with: &Term) -> (res: Term)
    ensures
        res@ == replace_term(t@, repl@, with@),
    decreases t,
{
    if checkEqTerm(t, repl) {
        return with.clone();
    }
    match t {
        Term::Stmt(cop, subj, pred) => {
            let res_subj = replace(subj, repl, with);
            let res_pred = replace(pred, repl, with);
            Term::Stmt(*cop, Box::new(res_subj), Box::new(res_pred))
        },
        Term::Sequence(seq) => Term::Sequence(replace_in_list(seq, repl, with)),
        Term::SetInt(set) => Term::SetInt(replace_in_list(set, repl, with)),
        Term::SetExt(set) => Term::SetExt(replace_in_list(set, repl, with)),
        Term::Conj(elements) => Term::Conj(replace_in_list(elements, repl, with)),
        Term::Prod(elements) => Term::Prod(replace_in_list(elements, repl, with)),
        Term::Img(rel, idx, elements) => {
            let arr = replace_in_list(elements, repl, with);
            Term::Img(Box::new((**rel).clone()), *idx, arr)
        },
        Term::IntInt(elements) => Term::IntInt(replace_in_list(elements, repl, with)),
        Term::ExtInt(elements) => Term::ExtInt(replace_in_list(elements, repl, with)),
        Term::Par(seq) => Term::Par(replace_in_list(seq, repl, with)),
        Term::Neg(term) => {
            let x = replace(term, repl, with);
            Term::Neg(Box::new(x))
        },
        _ => t.clone(),
    }
}

/// helper to introduce variables, counts possible terms and doesn't intro if count < 2
fn intro_vars(t: &Term, repl: &Term, with: &Term) -> (res: Vec<Term>)
    ensures
        terms_view(res@) == spec_intro_vars(t@, repl@, with@),
{
    if count_occurence_subterms(t, repl) < 2 {
        let res: Vec<Term> = Vec::new();
        assert(terms_view(res@) =~= Seq::<TermV>::empty());
        return res; // is not worth to itro vars because it occurs only once!
    }
    let res = vec![replace(t, repl, with)];
    assert(terms_view(res@) =~= seq![res@[0]@]);
    res
}

/// var intro for procedural: `x` in `< (x --> [y], ...) =/> ... >` becomes
/// the variable `with` (a fresh independent variable)
pub fn matchandintro_var1(s: &Term, with: &Term) -> (res: Vec<Term>)
    ensures
        terms_view(res@) == spec_matchandintro_var1(s@, with@),
{
    proof {
        reveal_with_fuel(Term::view_term, 3);
    }
    let none: Vec<Term> = Vec::new();
    assert(terms_view(none@) =~= Seq::<TermV>::empty());
    // match < ( x --> [y] , ... ) =/> ... >  where x will be var
    match s {
        Term::Stmt(Copula::PREDIMPL, subj, _pred) => {
            match &**subj {
                Term::Sequence(seq) => {
                    proof {
                        lemma_view_list(seq@);
                    }
                    if seq.len() != 2 {
                        return none;
                    }
                    match &*seq[0] {
                        Term::Stmt(Copula::INH, subj2, pred2) => {
                            match &**pred2 {
                                Term::SetInt(_) => intro_vars(s, subj2, with),
                                _ => none,
                            }
                        },
                        _ => none,
                    }
                },
                _ => none,
            }
        },
        _ => none,
    }
}

} // verus!

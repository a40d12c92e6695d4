//! Logic unifier for Terms for (any) NARS

use vstd::prelude::*;
use crate::term::{Term, TermV, checkEqTerm, lemma_view_list, lemma_view_list_ext};

verus! {

/// structure to store assignment of var
pub struct Asgnment {
    pub var: Term,
    pub val: Term,
}

impl View for Asgnment {
    type V = (TermV, TermV);

    open spec fn view(&self) -> (TermV, TermV) {
        (self.var@, self.val@)
    }
}

/// models of a list of assignments
pub open spec fn asg_view(v: Seq<Asgnment>) -> Seq<(TermV, TermV)> {
    v.map_values(|a: Asgnment| a@)
}

/// the value of the first assignment of `var`, if any
pub open spec fn lookup(var: TermV, asg: Seq<(TermV, TermV)>) -> Option<TermV>
    decreases asg.len(),
{
    if asg.len() == 0 {
        None
    } else {
        match lookup(var, asg.drop_last()) {
            Some(v) => Some(v),
            None => if asg.last().0 == var {
                Some(asg.last().1)
            } else {
                None
            },
        }
    }
}

/// is the term a variable?
pub open spec fn is_var(t: TermV) -> bool {
    t is Var
}

/// the result of unifying `a` with `b` given earlier assignments: the
/// assignments extended by those that `a` needs, or `None` where the two
/// terms do not unify. Only variables of `a` are assigned, and never to a
/// variable.
pub open spec fn unify_rec(a: TermV, b: TermV, asg: Seq<(TermV, TermV)>) -> Option<Seq<(TermV, TermV)>>
    decreases a,
{
    match a {
        TermV::Var(_, _) => {
            if is_var(b) {
                None
            } else {
                match lookup(a, asg) {
                    Some(v) => if v == b {
                        Some(asg)
                    } else {
                        None
                    },
                    None => Some(asg.push((a, b))),
                }
            }
        },
        TermV::Stmt(ca, sa, pa) => match b {
            TermV::Stmt(cb, sb, pb) => if ca == cb {
                match unify_rec(*sa, *sb, asg) {
                    Some(asg2) => unify_rec(*pa, *pb, asg2),
                    None => None,
                }
            } else {
                None
            },
            _ => None,
        },
        TermV::Name(na) => match b {
            TermV::Name(nb) => if na == nb {
                Some(asg)
            } else {
                None
            },
            _ => None,
        },
        TermV::List(ka, la) => match b {
            TermV::List(kb, lb) => if ka == kb && la.len() == lb.len() {
                unify_list(la, lb, asg)
            } else {
                None
            },
            _ => None,
        },
        TermV::Img(ra, ia, la) => match b {
            TermV::Img(rb, ib, lb) => if ia == ib {
                match unify_rec(*ra, *rb, asg) {
                    Some(asg2) => if la.len() == lb.len() {
                        unify_list(la, lb, asg2)
                    } else {
                        None
                    },
                    None => None,
                }
            } else {
                None
            },
            _ => None,
        },
        TermV::Neg(x) => match b {
            TermV::Neg(y) => unify_rec(*x, *y, asg),
            _ => None,
        },
    }
}

/// unification of two lists of equal length, element by element from the left
pub open spec fn unify_list(la: Seq<TermV>, lb: Seq<TermV>, asg: Seq<(TermV, TermV)>) -> Option<Seq<(TermV, TermV)>>
    decreases la,
{
    if la.len() == 0 {
        Some(asg)
    } else {
        match unify_list(la.subrange(0, la.len() - 1), lb.subrange(0, lb.len() - 1), asg) {
            Some(asg2) => unify_rec(la[la.len() - 1], lb[lb.len() - 1], asg2),
            None => None,
        }
    }
}

/// the term with each assigned variable replaced by its value
pub open spec fn subst_term(t: TermV, asg: Seq<(TermV, TermV)>) -> TermV
    decreases t,
{
    match t {
        TermV::Var(_, _) => match lookup(t, asg) {
            Some(v) => v,
            None => t,
        },
        TermV::Stmt(c, s, p) => TermV::Stmt(c, Box::new(subst_term(*s, asg)), Box::new(subst_term(*p, asg))),
        TermV::Name(_) => t,
        TermV::List(k, l) => TermV::List(k, subst_list(l, asg)),
        TermV::Img(r, i, l) => TermV::Img(Box::new(subst_term(*r, asg)), i, subst_list(l, asg)),
        TermV::Neg(x) => TermV::Neg(Box::new(subst_term(*x, asg))),
    }
}

/// substitution in each term of a list
pub open spec fn subst_list(l: Seq<TermV>, asg: Seq<(TermV, TermV)>) -> Seq<TermV>
    decreases l,
{
    if l.len() == 0 {
        Seq::empty()
    } else {
        subst_list(l.subrange(0, l.len() - 1), asg).push(subst_term(l[l.len() - 1], asg))
    }
}

/// `pre` is a prefix of `ext`
pub open spec fn is_prefix(pre: Seq<(TermV, TermV)>, ext: Seq<(TermV, TermV)>) -> bool {
    pre.len() <= ext.len() && ext.subrange(0, pre.len() as int) == pre
}

// ---------------------------------------------------------------------------
// lemmas

/// lookup in a prefix of the assignments
proof fn lemma_lookup_prefix(var: TermV, asg: Seq<(TermV, TermV)>, n: int)
    requires
        0 <= n <= asg.len(),
        lookup(var, asg.subrange(0, n)) is Some,
    ensures
        lookup(var, asg) == lookup(var, asg.subrange(0, n)),
    decreases asg.len(),
{
    if n < asg.len() {
        let a2 = asg.drop_last();
        assert(a2.subrange(0, n) =~= asg.subrange(0, n));
        lemma_lookup_prefix(var, a2, n);
    } else {
        assert(asg.subrange(0, n) =~= asg);
    }
}

/// an assignment found in a prefix is found in every extension
proof fn lemma_lookup_extend(var: TermV, pre: Seq<(TermV, TermV)>, ext: Seq<(TermV, TermV)>)
    requires
        is_prefix(pre, ext),
        lookup(var, pre) is Some,
    ensures
        lookup(var, ext) == lookup(var, pre),
{
    lemma_lookup_prefix(var, ext, pre.len() as int);
}

proof fn lemma_prefix_trans(a: Seq<(TermV, TermV)>, b: Seq<(TermV, TermV)>, c: Seq<(TermV, TermV)>)
    requires
        is_prefix(a, b),
        is_prefix(b, c),
    ensures
        is_prefix(a, c),
{
    assert(c.subrange(0, a.len() as int) =~= b.subrange(0, a.len() as int));
}

proof fn lemma_prefix_refl(a: Seq<(TermV, TermV)>)
    ensures
        is_prefix(a, a),
{
    assert(a.subrange(0, a.len() as int) =~= a);
}

proof fn lemma_prefix_push(a: Seq<(TermV, TermV)>, x: (TermV, TermV))
    ensures
        is_prefix(a, a.push(x)),
{
    assert(a.push(x).subrange(0, a.len() as int) =~= a);
}

/// Soundness of unification: where `a` unifies with `b`, the earlier
/// assignments are kept, and substituting any extension of the resulting
/// assignments into `a` gives `b`.
pub proof fn lemma_unify_sound(a: TermV, b: TermV, asg: Seq<(TermV, TermV)>, ext: Seq<(TermV, TermV)>)
    requires
        unify_rec(a, b, asg) is Some,
        is_prefix(unify_rec(a, b, asg).unwrap(), ext),
    ensures
        is_prefix(asg, unify_rec(a, b, asg).unwrap()),
        subst_term(a, ext) == b,
    decreases a,
{
    let r = unify_rec(a, b, asg).unwrap();
    match a {
        TermV::Var(_, _) => {
            match lookup(a, asg) {
                Some(v) => {
                    lemma_prefix_refl(asg);
                    lemma_lookup_extend(a, asg, ext);
                },
                None => {
                    lemma_prefix_push(asg, (a, b));
                    assert(lookup(a, asg.push((a, b))) == Some(b)) by {
                        assert(asg.push((a, b)).drop_last() =~= asg);
                    }
                    lemma_lookup_extend(a, r, ext);
                },
            }
        },
        TermV::Stmt(ca, sa, pa) => match b {
            TermV::Stmt(cb, sb, pb) => {
                let asg2 = unify_rec(*sa, *sb, asg).unwrap();
                lemma_unify_sound(*pa, *pb, asg2, ext);
                lemma_prefix_trans(asg2, r, ext);
                lemma_unify_sound(*sa, *sb, asg, ext);
                lemma_prefix_trans(asg, asg2, r);
            },
            _ => {},
        },
        TermV::Name(_) => {
            lemma_prefix_refl(asg);
        },
        TermV::List(ka, la) => match b {
            TermV::List(kb, lb) => {
                lemma_unify_list_sound(la, lb, asg, ext);
            },
            _ => {},
        },
        TermV::Img(ra, ia, la) => match b {
            TermV::Img(rb, ib, lb) => {
                let asg2 = unify_rec(*ra, *rb, asg).unwrap();
                lemma_unify_list_sound(la, lb, asg2, ext);
                lemma_prefix_trans(asg2, r, ext);
                lemma_unify_sound(*ra, *rb, asg, ext);
                lemma_prefix_trans(asg, asg2, r);
            },
            _ => {},
        },
        TermV::Neg(x) => match b {
            TermV::Neg(y) => {
                lemma_unify_sound(*x, *y, asg, ext);
            },
            _ => {},
        },
    }
}

/// soundness of the unification of two lists
pub proof fn lemma_unify_list_sound(la: Seq<TermV>, lb: Seq<TermV>, asg: Seq<(TermV, TermV)>, ext: Seq<(TermV, TermV)>)
    requires
        la.len() == lb.len(),
        unify_list(la, lb, asg) is Some,
        is_prefix(unify_list(la, lb, asg).unwrap(), ext),
    ensures
        is_prefix(asg, unify_list(la, lb, asg).unwrap()),
        subst_list(la, ext) == lb,
    decreases la,
{
    if la.len() == 0 {
        lemma_prefix_refl(asg);
        assert(lb =~= Seq::<TermV>::empty());
    } else {
        let la2 = la.subrange(0, la.len() - 1);
        let lb2 = lb.subrange(0, lb.len() - 1);
        let asg2 = unify_list(la2, lb2, asg).unwrap();
        let r = unify_list(la, lb, asg).unwrap();
        lemma_unify_sound(la[la.len() - 1], lb[lb.len() - 1], asg2, ext);
        lemma_prefix_trans(asg2, r, ext);
        lemma_unify_list_sound(la2, lb2, asg, ext);
        lemma_prefix_trans(asg, asg2, r);
        assert(subst_list(la, ext) =~= lb);
    }
}

/// Unification is sound: when `unify(a, b)` gives assignments, substituting
/// them into `a` gives `b`.
pub proof fn law_unify_subst(a: TermV, b: TermV)
    requires
        unify_rec(a, b, Seq::empty()) is Some,
    ensures
        subst_term(a, unify_rec(a, b, Seq::empty()).unwrap()) == b,
{
    lemma_prefix_refl(unify_rec(a, b, Seq::empty()).unwrap());
    lemma_unify_sound(a, b, Seq::empty(), unify_rec(a, b, Seq::empty()).unwrap());
}

// ---------------------------------------------------------------------------
// executable functions

proof fn lemma_asg_view_push(v: Seq<Asgnment>, a: Asgnment)
    ensures
        asg_view(v.push(a)) == asg_view(v).push(a@),
{
    assert(asg_view(v.push(a)) =~= asg_view(v).push(a@));
}

/// a failure in a prefix of two lists is a failure of the whole lists
proof fn lemma_unify_list_none(la: Seq<TermV>, lb: Seq<TermV>, asg: Seq<(TermV, TermV)>, n: int)
    requires
        la.len() == lb.len(),
        0 <= n <= la.len(),
        unify_list(la.subrange(0, n), lb.subrange(0, n), asg) is None,
    ensures
        unify_list(la, lb, asg) is None,
    decreases la.len(),
{
    if n == la.len() {
        assert(la.subrange(0, n) =~= la);
        assert(lb.subrange(0, n) =~= lb);
    } else {
        let la2 = la.subrange(0, la.len() - 1);
        let lb2 = lb.subrange(0, lb.len() - 1);
        assert(la2.subrange(0, n) =~= la.subrange(0, n));
        assert(lb2.subrange(0, n) =~= lb.subrange(0, n));
        lemma_unify_list_none(la2, lb2, asg, n);
    }
}

/// one more element of two lists
proof fn lemma_unify_list_step(la: Seq<TermV>, lb: Seq<TermV>, asg: Seq<(TermV, TermV)>, i: int)
    requires
        la.len() == lb.len(),
        0 <= i < la.len(),
    ensures
        unify_list(la.subrange(0, i + 1), lb.subrange(0, i + 1), asg) == match unify_list(la.subrange(0, i), lb.subrange(0, i), asg) {
            Some(asg2) => unify_rec(la[i], lb[i], asg2),
            None => None,
        },
{
    assert(la.subrange(0, i + 1).subrange(0, i) =~= la.subrange(0, i));
    assert(lb.subrange(0, i + 1).subrange(0, i) =~= lb.subrange(0, i));
}

/// check if the variable is already assigned
fn checkAssigned(var: &Term, assignments: &Vec<Asgnment>) -> (r: bool)
    ensures
        r == lookup(var@, asg_view(assignments@)) is Some,
{
    let ghost s = asg_view(assignments@);
    let mut i: usize = 0;
    while i < assignments.len()
        invariant
            i <= assignments.len(),
            s == asg_view(assignments@),
            lookup(var@, s.subrange(0, i as int)) is None,
        decreases assignments.len() - i,
    {
        if checkEqTerm(&assignments[i].var, var) {
            proof {
                assert(s.subrange(0, i + 1).drop_last() =~= s.subrange(0, i as int));
                lemma_lookup_prefix(var@, s, i + 1);
            }
            return true;
        }
        assert(s.subrange(0, i + 1).drop_last() =~= s.subrange(0, i as int));
        i += 1;
    }
    assert(s.subrange(0, i as int) =~= s);
    false
}

/// does the first assignment of the variable give it the value `val`?
fn checkSameVal(var: &Term, val: &Term, assignments: &Vec<Asgnment>) -> (r: bool)
    ensures
        r == (lookup(var@, asg_view(assignments@)) == Some(val@)),
{
    let ghost s = asg_view(assignments@);
    let mut i: usize = 0;
    while i < assignments.len()
        invariant
            i <= assignments.len(),
            s == asg_view(assignments@),
            lookup(var@, s.subrange(0, i as int)) is None,
        decreases assignments.len() - i,
    {
        if checkEqTerm(&assignments[i].var, var) {
            proof {
                assert(s.subrange(0, i + 1).drop_last() =~= s.subrange(0, i as int));
                lemma_lookup_prefix(var@, s, i + 1);
            }
            return checkEqTerm(&assignments[i].val, val);
        }
        assert(s.subrange(0, i + 1).drop_last() =~= s.subrange(0, i as int));
        i += 1;
    }
    assert(s.subrange(0, i as int) =~= s);
    false
}

fn unify_lists(a: &Vec<Box<Term>>, b: &Vec<Box<Term>>, assignments: &mut Vec<Asgnment>) -> (r: bool)
    requires
        a.len() == b.len(),
    ensures
        r == unify_list(Term::view_list(a@), Term::view_list(b@), asg_view(old(assignments)@)) is Some,
        r ==> asg_view(final(assignments)@) == unify_list(Term::view_list(a@), Term::view_list(b@), asg_view(old(assignments)@)).unwrap(),
    decreases a@,
{
    let ghost la = Term::view_list(a@);
    let ghost lb = Term::view_list(b@);
    let ghost start = asg_view(assignments@);
    proof {
        lemma_view_list(a@);
        lemma_view_list(b@);
        assert(la.subrange(0, 0) =~= Seq::<TermV>::empty());
        assert(lb.subrange(0, 0) =~= Seq::<TermV>::empty());
    }
    let mut idx: usize = 0;
    while idx < a.len()
        invariant
            idx <= a.len(),
            a.len() == b.len(),
            la == Term::view_list(a@),
            lb == Term::view_list(b@),
            la.len() == a.len(),
            lb.len() == b.len(),
            forall|j: int| 0 <= j < a.len() ==> la[j] == a@[j].view_term(),
            forall|j: int| 0 <= j < b.len() ==> lb[j] == b@[j].view_term(),
            start == asg_view(old(assignments)@),
            unify_list(la.subrange(0, idx as int), lb.subrange(0, idx as int), start) == Some(asg_view(assignments@)),
        decreases a.len() - idx,
    {
        proof {
            lemma_unify_list_step(la, lb, start, idx as int);
        }
        let ghost before = asg_view(assignments@);
        if !unify2(&a[idx], &b[idx], assignments) {
            proof {
                assert(unify_rec(la[idx as int], lb[idx as int], before) is None);
                assert(unify_list(la.subrange(0, idx + 1), lb.subrange(0, idx + 1), start) is None);
                lemma_unify_list_none(la, lb, start, idx + 1);
            }
            return false;
        }
        idx += 1;
    }
    proof {
        assert(la.subrange(0, a.len() as int) =~= la);
        assert(lb.subrange(0, b.len() as int) =~= lb);
    }
    true
}

/// unifies a variable `a2` with `b2`
fn unify_var(a2: &Term, b2: &Term, assignments: &mut Vec<Asgnment>) -> (r: bool)
    requires
        a2@ is Var,
    ensures
        r == unify_rec(a2@, b2@, asg_view(old(assignments)@)) is Some,
        r ==> asg_view(final(assignments)@) == unify_rec(a2@, b2@, asg_view(old(assignments)@)).unwrap(),
{
    match b2 {
        Term::QVar(_nameb) => false, // can't unify var with var
        Term::DepVar(_nameb) => false, // can't unify var with var
        Term::IndepVar(_nameb) => false, // can't unify var with var
        _ => {
            if checkAssigned(a2, assignments) {
                return checkSameVal(a2, b2, assignments);
            } else {
                let ghost prev = assignments@;
                let asg = Asgnment { var: a2.clone(), val: b2.clone() };
                assignments.push(asg); // add assignment
                proof {
                    lemma_asg_view_push(prev, asg);
                }
                true
            }
        },
    }
}

fn unify2(a2: &Term, b2: &Term, assignments: &mut Vec<Asgnment>) -> (r: bool)
    ensures
        r == unify_rec(a2@, b2@, asg_view(old(assignments)@)) is Some,
        r ==> asg_view(final(assignments)@) == unify_rec(a2@, b2@, asg_view(old(assignments)@)).unwrap(),
    decreases a2,
{
    match a2 {
        Term::QVar(_namea) => unify_var(a2, b2, assignments),
        Term::DepVar(_namea) => unify_var(a2, b2, assignments),
        Term::IndepVar(_namea) => unify_var(a2, b2, assignments),
        Term::Stmt(copulaa, subja, preda) => {
            match b2 {
                Term::Stmt(copulab, subjb, predb) if *copulaa == *copulab => {
                    unify2(subja, subjb, assignments) && unify2(preda, predb, assignments)
                },
                _ => false,
            }
        },
        Term::Name(namea) => {
            match b2 {
                Term::Name(nameb) => *namea == *nameb,
                _ => false,
            }
        },
        Term::Sequence(seqa) => {
            match b2 {
                Term::Sequence(seqb) => {
                    proof { lemma_view_list(seqa@); lemma_view_list(seqb@); }
                    if seqa.len() == seqb.len() { unify_lists(seqa, seqb, assignments) } else { false }
                },
                _ => false,
            }
        },
        Term::SetInt(seta) => {
            match b2 {
                Term::SetInt(setb) => {
                    proof { lemma_view_list(seta@); lemma_view_list(setb@); }
                    if seta.len() == setb.len() { unify_lists(seta, setb, assignments) } else { false }
                },
                _ => false,
            }
        },
        Term::SetExt(seta) => {
            match b2 {
                Term::SetExt(setb) => {
                    proof { lemma_view_list(seta@); lemma_view_list(setb@); }
                    if seta.len() == setb.len() { unify_lists(seta, setb, assignments) } else { false }
                },
                _ => false,
            }
        },
        Term::Conj(elementsa) => {
            match b2 {
                Term::Conj(elementsb) => {
                    proof { lemma_view_list(elementsa@); lemma_view_list(elementsb@); }
                    if elementsa.len() == elementsb.len() { unify_lists(elementsa, elementsb, assignments) } else { false }
                },
                _ => false,
            }
        },
        Term::Prod(elementsa) => {
            match b2 {
                Term::Prod(elementsb) => {
                    proof { lemma_view_list(elementsa@); lemma_view_list(elementsb@); }
                    if elementsa.len() == elementsb.len() { unify_lists(elementsa, elementsb, assignments) } else { false }
                },
                _ => false,
            }
        },
        Term::Img(rela, idxa, elementsa) => {
            match b2 {
                Term::Img(relb, idxb, elementsb) if *idxa == *idxb => {
                    if !unify2(rela, relb, assignments) {
                        return false;
                    }
                    proof { lemma_view_list(elementsa@); lemma_view_list(elementsb@); }
                    if elementsa.len() == elementsb.len() { unify_lists(elementsa, elementsb, assignments) } else { false }
                },
                _ => false,
            }
        },
        Term::IntInt(seta) => {
            match b2 {
                Term::IntInt(setb) => {
                    proof { lemma_view_list(seta@); lemma_view_list(setb@); }
                    if seta.len() == setb.len() { unify_lists(seta, setb, assignments) } else { false }
                },
                _ => false,
            }
        },
        Term::ExtInt(seta) => {
            match b2 {
                Term::ExtInt(setb) => {
                    proof { lemma_view_list(seta@); lemma_view_list(setb@); }
                    if seta.len() == setb.len() { unify_lists(seta, setb, assignments) } else { false }
                },
                _ => false,
            }
        },
        Term::Par(elementsa) => {
            match b2 {
                Term::Par(elementsb) => {
                    proof { lemma_view_list(elementsa@); lemma_view_list(elementsb@); }
                    if elementsa.len() == elementsb.len() { unify_lists(elementsa, elementsb, assignments) } else { false }
                },
                _ => false,
            }
        },
        Term::Neg(terma) => {
            match b2 {
                Term::Neg(termb) => unify2(terma, termb, assignments),
                _ => false,
            }
        },
    }
}

/// tries to unify terms: the variables of `a` are assigned to the parts of
/// `b` at their places, and `None` is returned where that is not possible
pub fn unify(a: &Term, b: &Term) -> (res: Option<Vec<Asgnment>>)
    ensures
        res is Some <==> unify_rec(a@, b@, Seq::empty()) is Some,
        res matches Some(v) ==> asg_view(v@) == unify_rec(a@, b@, Seq::empty()).unwrap(),
{
    let mut assignments: Vec<Asgnment> = Vec::new();
    assert(asg_view(assignments@) =~= Seq::<(TermV, TermV)>::empty());
    if unify2(a, b, &mut assignments) {
        return Some(assignments);
    }
    None
}

fn subst_lists(v: &Vec<Box<Term>>, subst: &Vec<Asgnment>) -> (res: Vec<Box<Term>>)
    ensures
        Term::view_list(res@) == subst_list(Term::view_list(v@), asg_view(subst@)),
    decreases v@,
{
    let ghost l = Term::view_list(v@);
    let ghost s = asg_view(subst@);
    proof {
        lemma_view_list(v@);
        assert(subst_list(l.subrange(0, 0), s) =~= Seq::<TermV>::empty());
    }
    let mut arr: Vec<Box<Term>> = Vec::new();
    let mut i: usize = 0;
    while i < v.len()
        invariant
            i <= v.len(),
            l == Term::view_list(v@),
            s == asg_view(subst@),
            l.len() == v.len(),
            forall|j: int| 0 <= j < v.len() ==> l[j] == v@[j].view_term(),
            arr@.len() == i,
            subst_list(l.subrange(0, i as int), s).len() == i,
            forall|j: int| 0 <= j < i ==> arr@[j].view_term() == subst_list(l.subrange(0, i as int), s)[j],
        decreases v.len() - i,
    {
        let x = unifySubst(&v[i], subst);
        arr.push(Box::new(x));
        proof {
            assert(l.subrange(0, i + 1).subrange(0, i as int) =~= l.subrange(0, i as int));
        }
        i += 1;
    }
    proof {
        assert(l.subrange(0, v.len() as int) =~= l);
        lemma_view_list_ext(arr@, subst_list(l, s));
    }
    arr
}

fn subst_var(t: &Term, subst: &Vec<Asgnment>) -> (res: Term)
    requires
        t@ is Var,
    ensures
        res@ == subst_term(t@, asg_view(subst@)),
{
    let ghost s = asg_view(subst@);
    let mut i: usize = 0;
    while i < subst.len()
        invariant
            i <= subst.len(),
            t@ is Var,
            s == asg_view(subst@),
            lookup(t@, s.subrange(0, i as int)) is None,
        decreases subst.len() - i,
    {
        if checkEqTerm(t, &subst[i].var) {
            proof {
                assert(s[i as int] == (subst@[i as int].var@, subst@[i as int].val@));
                assert(s.subrange(0, i + 1).drop_last() =~= s.subrange(0, i as int));
                assert(s.subrange(0, i + 1).last() == s[i as int]);
                assert(lookup(t@, s.subrange(0, i + 1)) == Some(subst@[i as int].val@));
                lemma_lookup_prefix(t@, s, i + 1);
            }
            let v = subst[i].val.clone();
            assert(lookup(t@, s) == Some(v@));
            assert(subst_term(t@, s) == v@);
            return v;
        }
        assert(s.subrange(0, i + 1).drop_last() =~= s.subrange(0, i as int));
        i += 1;
    }
    assert(s.subrange(0, i as int) =~= s);
    t.clone()
}

/// substitute variables with values
pub fn unifySubst(t: &Term, subst: &Vec<Asgnment>) -> (res: Term)
    ensures
        res@ == subst_term(t@, asg_view(subst@)),
    decreases t,
{
    match t {
        Term::QVar(_name) => subst_var(t, subst),
        Term::DepVar(_name) => subst_var(t, subst),
        Term::IndepVar(_name) => subst_var(t, subst),
        Term::Stmt(copula, subj, pred) => {
            let s2 = unifySubst(subj, subst);
            let p2 = unifySubst(pred, subst);
            Term::Stmt(*copula, Box::new(s2), Box::new(p2))
        },
        Term::Name(_) => t.clone(),
        Term::Sequence(subterms) => Term::Sequence(subst_lists(subterms, subst)),
        Term::SetInt(subterms) => Term::SetInt(subst_lists(subterms, subst)),
        Term::SetExt(subterms) => Term::SetExt(subst_lists(subterms, subst)),
        Term::Conj(subterms) => Term::Conj(subst_lists(subterms, subst)),
        Term::Prod(subterms) => Term::Prod(subst_lists(subterms, subst)),
        Term::Img(rel, idx, subterms) => {
            let rel2 = unifySubst(rel, subst);
            let arr = subst_lists(subterms, subst);
            Term::Img(Box::new(rel2), *idx, arr)
        },
        Term::IntInt(subterms) => Term::IntInt(subst_lists(subterms, subst)),
        Term::ExtInt(subterms) => Term::ExtInt(subst_lists(subterms, subst)),
        Term::Par(subterms) => Term::Par(subst_lists(subterms, subst)),
        Term::Neg(term2) => {
            let x = unifySubst(term2, subst);
            Term::Neg(Box::new(x))
        },
    }
}

/// the term holds no variable
pub open spec fn ground(t: TermV) -> bool
    decreases t,
{
    match t {
        TermV::Var(_, _) => false,
        TermV::Stmt(_, s, p) => ground(*s) && ground(*p),
        TermV::Name(_) => true,
        TermV::List(_, l) => ground_list(l),
        TermV::Img(r, _, l) => ground(*r) && ground_list(l),
        TermV::Neg(x) => ground(*x),
    }
}

/// no term of the list holds a variable
pub open spec fn ground_list(l: Seq<TermV>) -> bool
    decreases l,
{
    if l.len() == 0 {
        true
    } else {
        ground_list(l.subrange(0, l.len() - 1)) && ground(l[l.len() - 1])
    }
}

/// A term without variables unifies with itself, and the unification adds
/// no assignment.
pub proof fn law_unify_ground_self(a: TermV, asg: Seq<(TermV, TermV)>)
    requires
        ground(a),
    ensures
        unify_rec(a, a, asg) == Some(asg),
    decreases a,
{
    match a {
        TermV::Stmt(_, s, p) => {
            law_unify_ground_self(*s, asg);
            law_unify_ground_self(*p, asg);
        },
        TermV::List(_, l) => {
            lemma_unify_list_ground_self(l, asg);
        },
        TermV::Img(r, _, l) => {
            law_unify_ground_self(*r, asg);
            lemma_unify_list_ground_self(l, asg);
        },
        TermV::Neg(x) => {
            law_unify_ground_self(*x, asg);
        },
        _ => {},
    }
}

/// a list of terms without variables unifies with itself
proof fn lemma_unify_list_ground_self(l: Seq<TermV>, asg: Seq<(TermV, TermV)>)
    requires
        ground_list(l),
    ensures
        unify_list(l, l, asg) == Some(asg),
    decreases l,
{
    if l.len() > 0 {
        lemma_unify_list_ground_self(l.subrange(0, l.len() - 1), asg);
        law_unify_ground_self(l[l.len() - 1], asg);
    }
}

/// Substituting no assignments leaves a term as it is.
pub proof fn law_subst_nothing(t: TermV)
    ensures
        subst_term(t, Seq::empty()) == t,
    decreases t,
{
    match t {
        TermV::Stmt(_, s, p) => {
            law_subst_nothing(*s);
            law_subst_nothing(*p);
        },
        TermV::List(_, l) => {
            lemma_subst_list_nothing(l);
        },
        TermV::Img(r, _, l) => {
            law_subst_nothing(*r);
            lemma_subst_list_nothing(l);
        },
        TermV::Neg(x) => {
            law_subst_nothing(*x);
        },
        _ => {},
    }
}

/// substituting no assignments leaves a list as it is
proof fn lemma_subst_list_nothing(l: Seq<TermV>)
    ensures
        subst_list(l, Seq::empty()) == l,
    decreases l,
{
    if l.len() > 0 {
        lemma_subst_list_nothing(l.subrange(0, l.len() - 1));
        law_subst_nothing(l[l.len() - 1]);
        assert(l.subrange(0, l.len() - 1).push(l[l.len() - 1]) =~= l);
    }
}

/// every variable of the term has an assignment to a term that is no variable
pub open spec fn covered(t: TermV, sigma: Seq<(TermV, TermV)>) -> bool
    decreases t,
{
    match t {
        TermV::Var(_, _) => lookup(t, sigma) matches Some(v) && !is_var(v),
        TermV::Stmt(_, s, p) => covered(*s, sigma) && covered(*p, sigma),
        TermV::Name(_) => true,
        TermV::List(_, l) => covered_list(l, sigma),
        TermV::Img(r, _, l) => covered(*r, sigma) && covered_list(l, sigma),
        TermV::Neg(x) => covered(*x, sigma),
    }
}

/// every variable of the terms of the list has an assignment to a term that
/// is no variable
pub open spec fn covered_list(l: Seq<TermV>, sigma: Seq<(TermV, TermV)>) -> bool
    decreases l,
{
    if l.len() == 0 {
        true
    } else {
        covered_list(l.subrange(0, l.len() - 1), sigma) && covered(l[l.len() - 1], sigma)
    }
}

/// the assignments agree with `sigma` on every variable they assign
pub open spec fn agrees(asg: Seq<(TermV, TermV)>, sigma: Seq<(TermV, TermV)>) -> bool {
    forall|v: TermV| #[trigger] lookup(v, asg) is Some ==> lookup(v, asg) == lookup(v, sigma)
}

/// lookup after appending an assignment
proof fn lemma_lookup_push(v: TermV, asg: Seq<(TermV, TermV)>, x: (TermV, TermV))
    ensures
        lookup(v, asg.push(x)) == match lookup(v, asg) {
            Some(w) => Some(w),
            None => if x.0 == v { Some(x.1) } else { None },
        },
{
    assert(asg.push(x).drop_last() =~= asg);
}

/// unification of a term with an instance of it succeeds from any
/// assignments that agree with the instance, and the result agrees too
proof fn lemma_unify_complete(a: TermV, sigma: Seq<(TermV, TermV)>, asg: Seq<(TermV, TermV)>)
    requires
        covered(a, sigma),
        agrees(asg, sigma),
    ensures
        unify_rec(a, subst_term(a, sigma), asg) is Some,
        agrees(unify_rec(a, subst_term(a, sigma), asg).unwrap(), sigma),
    decreases a,
{
    match a {
        TermV::Var(_, _) => {
            let b = subst_term(a, sigma);
            match lookup(a, asg) {
                Some(v) => {},
                None => {
                    assert forall|v: TermV| #[trigger] lookup(v, asg.push((a, b))) is Some implies lookup(v, asg.push((a, b))) == lookup(v, sigma) by {
                        lemma_lookup_push(v, asg, (a, b));
                    }
                },
            }
        },
        TermV::Stmt(_, sa, pa) => {
            lemma_unify_complete(*sa, sigma, asg);
            let asg2 = unify_rec(*sa, subst_term(*sa, sigma), asg).unwrap();
            lemma_unify_complete(*pa, sigma, asg2);
        },
        TermV::List(_, la) => {
            lemma_unify_list_complete(la, sigma, asg);
        },
        TermV::Img(ra, _, la) => {
            lemma_unify_complete(*ra, sigma, asg);
            let asg2 = unify_rec(*ra, subst_term(*ra, sigma), asg).unwrap();
            lemma_unify_list_complete(la, sigma, asg2);
        },
        TermV::Neg(x) => {
            lemma_unify_complete(*x, sigma, asg);
        },
        _ => {},
    }
}

/// the same for lists
proof fn lemma_unify_list_complete(la: Seq<TermV>, sigma: Seq<(TermV, TermV)>, asg: Seq<(TermV, TermV)>)
    requires
        covered_list(la, sigma),
        agrees(asg, sigma),
    ensures
        subst_list(la, sigma).len() == la.len(),
        unify_list(la, subst_list(la, sigma), asg) is Some,
        agrees(unify_list(la, subst_list(la, sigma), asg).unwrap(), sigma),
    decreases la,
{
    if la.len() > 0 {
        let la2 = la.subrange(0, la.len() - 1);
        let lb = subst_list(la, sigma);
        lemma_unify_list_complete(la2, sigma, asg);
        assert(lb.subrange(0, lb.len() - 1) =~= subst_list(la2, sigma));
        let asg2 = unify_list(la2, subst_list(la2, sigma), asg).unwrap();
        lemma_unify_complete(la[la.len() - 1], sigma, asg2);
    }
}

/// Unification is complete: where assignments of all variables of `a` to
/// terms that are no variables turn `a` into `b`, `a` unifies with `b`.
pub proof fn law_unify_complete(a: TermV, sigma: Seq<(TermV, TermV)>)
    requires
        covered(a, sigma),
    ensures
        unify_rec(a, subst_term(a, sigma), Seq::empty()) is Some,
{
    assert(agrees(Seq::empty(), sigma));
    lemma_unify_complete(a, sigma, Seq::empty());
}

/// each assignment gives a variable a value that is no variable, and no
/// variable is assigned twice
pub open spec fn well_assigned(asg: Seq<(TermV, TermV)>) -> bool {
    &&& forall|i: int| 0 <= i < asg.len() ==> is_var(#[trigger] asg[i].0) && !is_var(asg[i].1)
    &&& forall|i: int, j: int| 0 <= i < j < asg.len() ==> #[trigger] asg[i].0 != #[trigger] asg[j].0
}

/// a variable without assignment occurs in no assignment
proof fn lemma_lookup_none(v: TermV, asg: Seq<(TermV, TermV)>)
    requires
        lookup(v, asg) is None,
    ensures
        forall|i: int| 0 <= i < asg.len() ==> #[trigger] asg[i].0 != v,
    decreases asg.len(),
{
    if asg.len() > 0 {
        lemma_lookup_none(v, asg.drop_last());
        assert forall|i: int| 0 <= i < asg.len() implies #[trigger] asg[i].0 != v by {
            if i < asg.len() - 1 {
                assert(asg.drop_last()[i] == asg[i]);
            }
        }
    }
}

/// the value found for a variable is the value of one of its assignments
proof fn lemma_lookup_some(v: TermV, asg: Seq<(TermV, TermV)>)
    requires
        lookup(v, asg) is Some,
    ensures
        exists|i: int| 0 <= i < asg.len() && asg[i].0 == v && #[trigger] asg[i].1 == lookup(v, asg).unwrap(),
    decreases asg.len(),
{
    if lookup(v, asg.drop_last()) is Some {
        lemma_lookup_some(v, asg.drop_last());
        let i = choose|i: int| 0 <= i < asg.drop_last().len() && asg.drop_last()[i].0 == v && #[trigger] asg.drop_last()[i].1 == lookup(v, asg.drop_last()).unwrap();
        assert(asg[i] == asg.drop_last()[i]);
    } else {
        assert(asg[asg.len() - 1].1 == lookup(v, asg).unwrap());
    }
}

/// unification keeps assignments well formed, and assigns every variable of
/// `a` a value
proof fn lemma_unify_well_assigned(a: TermV, b: TermV, asg: Seq<(TermV, TermV)>)
    requires
        well_assigned(asg),
        unify_rec(a, b, asg) is Some,
    ensures
        well_assigned(unify_rec(a, b, asg).unwrap()),
        covered(a, unify_rec(a, b, asg).unwrap()),
    decreases a,
{
    let r = unify_rec(a, b, asg).unwrap();
    lemma_prefix_refl(r);
    lemma_unify_sound(a, b, asg, r);
    match a {
        TermV::Var(_, _) => {
            match lookup(a, asg) {
                Some(v) => {
                    lemma_lookup_some(a, asg);
                },
                None => {
                    lemma_lookup_none(a, asg);
                    let r2 = asg.push((a, b));
                    assert forall|i: int, j: int| 0 <= i < j < r2.len() implies #[trigger] r2[i].0 != #[trigger] r2[j].0 by {
                        if j == asg.len() {
                            assert(r2[i] == asg[i]);
                        } else {
                            assert(r2[i] == asg[i] && r2[j] == asg[j]);
                        }
                    }
                    assert forall|i: int| 0 <= i < r2.len() implies is_var(#[trigger] r2[i].0) && !is_var(r2[i].1) by {
                        if i < asg.len() {
                            assert(r2[i] == asg[i]);
                        }
                    }
                    assert(r2.drop_last() =~= asg);
                },
            }
        },
        TermV::Stmt(_, sa, pa) => match b {
            TermV::Stmt(_, sb, pb) => {
                lemma_unify_well_assigned(*sa, *sb, asg);
                let asg2 = unify_rec(*sa, *sb, asg).unwrap();
                lemma_unify_well_assigned(*pa, *pb, asg2);
                lemma_unify_sound(*pa, *pb, asg2, r);
                lemma_covered_extend(*sa, asg2, r);
            },
            _ => {},
        },
        TermV::List(_, la) => match b {
            TermV::List(_, lb) => {
                lemma_unify_list_well_assigned(la, lb, asg);
            },
            _ => {},
        },
        TermV::Img(ra, _, la) => match b {
            TermV::Img(rb, _, lb) => {
                lemma_unify_well_assigned(*ra, *rb, asg);
                let asg2 = unify_rec(*ra, *rb, asg).unwrap();
                lemma_unify_list_well_assigned(la, lb, asg2);
                lemma_unify_list_sound(la, lb, asg2, r);
                lemma_covered_extend(*ra, asg2, r);
            },
            _ => {},
        },
        TermV::Neg(x) => match b {
            TermV::Neg(y) => {
                lemma_unify_well_assigned(*x, *y, asg);
            },
            _ => {},
        },
        _ => {},
    }
}

/// the same for lists
proof fn lemma_unify_list_well_assigned(la: Seq<TermV>, lb: Seq<TermV>, asg: Seq<(TermV, TermV)>)
    requires
        la.len() == lb.len(),
        well_assigned(asg),
        unify_list(la, lb, asg) is Some,
    ensures
        well_assigned(unify_list(la, lb, asg).unwrap()),
        covered_list(la, unify_list(la, lb, asg).unwrap()),
    decreases la,
{
    if la.len() > 0 {
        let la2 = la.subrange(0, la.len() - 1);
        let lb2 = lb.subrange(0, lb.len() - 1);
        lemma_unify_list_well_assigned(la2, lb2, asg);
        let asg2 = unify_list(la2, lb2, asg).unwrap();
        let r = unify_list(la, lb, asg).unwrap();
        lemma_prefix_refl(r);
        lemma_unify_well_assigned(la[la.len() - 1], lb[lb.len() - 1], asg2);
        lemma_unify_sound(la[la.len() - 1], lb[lb.len() - 1], asg2, r);
        lemma_covered_list_extend(la2, asg2, r);
    }
}

/// what is covered stays covered when assignments are appended
proof fn lemma_covered_extend(t: TermV, pre: Seq<(TermV, TermV)>, ext: Seq<(TermV, TermV)>)
    requires
        covered(t, pre),
        is_prefix(pre, ext),
    ensures
        covered(t, ext),
    decreases t,
{
    match t {
        TermV::Var(_, _) => {
            lemma_lookup_extend(t, pre, ext);
        },
        TermV::Stmt(_, s, p) => {
            lemma_covered_extend(*s, pre, ext);
            lemma_covered_extend(*p, pre, ext);
        },
        TermV::List(_, l) => {
            lemma_covered_list_extend(l, pre, ext);
        },
        TermV::Img(r, _, l) => {
            lemma_covered_extend(*r, pre, ext);
            lemma_covered_list_extend(l, pre, ext);
        },
        TermV::Neg(x) => {
            lemma_covered_extend(*x, pre, ext);
        },
        _ => {},
    }
}

/// the same for lists
proof fn lemma_covered_list_extend(l: Seq<TermV>, pre: Seq<(TermV, TermV)>, ext: Seq<(TermV, TermV)>)
    requires
        covered_list(l, pre),
        is_prefix(pre, ext),
    ensures
        covered_list(l, ext),
    decreases l,
{
    if l.len() > 0 {
        lemma_covered_list_extend(l.subrange(0, l.len() - 1), pre, ext);
        lemma_covered_extend(l[l.len() - 1], pre, ext);
    }
}

/// The assignments that unification gives assign each variable of `a`
/// once, to a value that is no variable, and no variable twice.
pub proof fn law_unify_assigns_once(a: TermV, b: TermV)
    requires
        unify_rec(a, b, Seq::empty()) is Some,
    ensures
        well_assigned(unify_rec(a, b, Seq::empty()).unwrap()),
        covered(a, unify_rec(a, b, Seq::empty()).unwrap()),
{
    lemma_unify_well_assigned(a, b, Seq::empty());
}

} // verus!

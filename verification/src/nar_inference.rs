//! Inference rules of the declarative reasoner: which conclusions follow
//! from one or two premises, and which truth function gives their truth value.

use vstd::prelude::*;
use crate::term::{Term, TermV, Copula, ListKind, checkEqTerm, retUniqueSubterms, retSubterms, dedup, subterms, terms_view, lemma_view_list, lemma_view_list_ext, concat_lists};
use crate::nar_sentence::EnumPunctation;
use crate::nar_unify::{unify, unifySubst, unify_rec, subst_term, asg_view};
use crate::nar_stamp::{Stamp, merge, checkOverlap, overlap, merged_ids, law_merge_ids, MAX_STAMP_IDS};

verus! {

/// how the truth value of a conclusion follows from the truth values given
/// with the premises (the first and the second truth value argument)
#[derive(PartialEq, Eq, Structural, Copy, Clone, Debug)]
pub enum TvFn {
    /// the first truth value
    First,
    /// the second truth value
    Second,
    /// negation of the first truth value
    NegFirst,
    /// deduction of the two
    Ded,
    /// abduction of the two
    Abd,
    /// induction of the two
    Ind,
    /// comparison of the two
    Comp,
}

/// a conclusion: its term, truth function and punctuation
pub type Concl = (Term, TvFn, EnumPunctation);

/// the model of a conclusion
pub open spec fn concl_view(c: Concl) -> (TermV, TvFn, EnumPunctation) {
    (c.0@, c.1, c.2)
}

/// models of a list of conclusions
pub open spec fn concls_view(v: Seq<Concl>) -> Seq<(TermV, TvFn, EnumPunctation)> {
    v.map_values(|c: Concl| concl_view(c))
}

/// the model of an optional conclusion
pub open spec fn opt_concl_view(c: Option<Concl>) -> Option<(TermV, TvFn, EnumPunctation)> {
    match c {
        Some(x) => Some(concl_view(x)),
        None => None,
    }
}

/// an optional conclusion as a list of zero or one conclusions
pub open spec fn opt_seq(c: Option<(TermV, TvFn, EnumPunctation)>) -> Seq<(TermV, TvFn, EnumPunctation)> {
    match c {
        Some(x) => seq![x],
        None => Seq::empty(),
    }
}

/// the statement `<s --> m>`
pub open spec fn inh(s: TermV, m: TermV) -> TermV {
    TermV::Stmt(Copula::INH, Box::new(s), Box::new(m))
}

// ---------------------------------------------------------------------------
// single premise rules

/// (!a). |- a.
pub open spec fn spec_inf_neg(a: TermV, punct: EnumPunctation) -> Option<(TermV, TvFn, EnumPunctation)> {
    if punct != EnumPunctation::JUGEMENT {
        None
    } else {
        match a {
            TermV::Neg(x) => Some((*x, TvFn::NegFirst, EnumPunctation::JUGEMENT)),
            _ => None,
        }
    }
}

/// a --> (X | Y). |- a --> X.  (element `idx` of the intersection)
pub open spec fn spec_inf_struct_pred1(a: TermV, punct: EnumPunctation, idx: int) -> Option<(TermV, TvFn, EnumPunctation)> {
    if punct != EnumPunctation::JUGEMENT {
        None
    } else {
        match a {
            TermV::Stmt(Copula::INH, subj, pred) => match *pred {
                TermV::List(ListKind::IntInt, arr) => if 0 <= idx < arr.len() {
                    Some((TermV::Stmt(Copula::INH, subj, Box::new(arr[idx])), TvFn::First, EnumPunctation::JUGEMENT))
                } else {
                    None
                },
                _ => None,
            },
            _ => None,
        }
    }
}

/// (X | Y) --> a. |- X --> a.  (element `idx` of the intersection)
pub open spec fn spec_inf_struct_subj1(a: TermV, punct: EnumPunctation, idx: int) -> Option<(TermV, TvFn, EnumPunctation)> {
    if punct != EnumPunctation::JUGEMENT {
        None
    } else {
        match a {
            TermV::Stmt(Copula::INH, subj, pred) => match *subj {
                TermV::List(ListKind::IntInt, arr) => if 0 <= idx < arr.len() {
                    Some((TermV::Stmt(Copula::INH, Box::new(arr[idx]), pred), TvFn::First, EnumPunctation::JUGEMENT))
                } else {
                    None
                },
                _ => None,
            },
            _ => None,
        }
    }
}

/// the premise is a judgement whose subject is a product `(X * Y ...) --> rel`
pub open spec fn is_prod_judgement(a: TermV, punct: EnumPunctation) -> bool {
    punct == EnumPunctation::JUGEMENT && (a matches TermV::Stmt(Copula::INH, prod, _) && (*prod matches TermV::List(ListKind::Prod, _)))
}

/// the product of a product judgement
pub open spec fn prod_of(a: TermV) -> Seq<TermV> {
    match a {
        TermV::Stmt(_, prod, _) => match *prod {
            TermV::List(_, arr) => arr,
            _ => Seq::empty(),
        },
        _ => Seq::empty(),
    }
}

/// (X * Y) --> rel. |- X --> (rel /1 Y).
pub open spec fn spec_inf_struct_prod0(a: TermV, punct: EnumPunctation) -> Option<(TermV, TvFn, EnumPunctation)> {
    if is_prod_judgement(a, punct) {
        let arr = prod_of(a);
        match a {
            TermV::Stmt(_, _, pred) => Some((
                TermV::Stmt(Copula::INH, Box::new(arr[0]), Box::new(TermV::Img(pred, 0, seq![arr[1]]))),
                TvFn::First,
                EnumPunctation::JUGEMENT,
            )),
            _ => None,
        }
    } else {
        None
    }
}

/// (X * Y) --> rel. |- Y --> (rel /2 X).  (for a product of two)
pub open spec fn spec_inf_struct_prod1(a: TermV, punct: EnumPunctation) -> Option<(TermV, TvFn, EnumPunctation)> {
    if is_prod_judgement(a, punct) && prod_of(a).len() == 2 {
        let arr = prod_of(a);
        match a {
            TermV::Stmt(_, _, pred) => Some((
                TermV::Stmt(Copula::INH, Box::new(arr[1]), Box::new(TermV::Img(pred, 1, seq![arr[0]]))),
                TvFn::First,
                EnumPunctation::JUGEMENT,
            )),
            _ => None,
        }
    } else {
        None
    }
}

/// <X --> (rel /1 Y)>.? |- (X * Y) --> rel.?  (`i` is 0)
/// <Y --> (rel /2 X)>.? |- (X * Y) --> rel.?  (`i` is 1)
/// the conclusion keeps the punctuation of the premise
pub open spec fn spec_inf_struct_img(a: TermV, punct: EnumPunctation, i: usize) -> Option<(TermV, TvFn, EnumPunctation)> {
    if punct != EnumPunctation::JUGEMENT && punct != EnumPunctation::QUESTION {
        None
    } else {
        match a {
            TermV::Stmt(Copula::INH, subj, pred) => match *pred {
                TermV::Img(pred_img, idx, arr) => if idx == i && arr.len() == 1 {
                    let prod = if i == 0 { seq![*subj, arr[0]] } else { seq![arr[0], *subj] };
                    Some((TermV::Stmt(Copula::INH, Box::new(TermV::List(ListKind::Prod, prod)), pred_img), TvFn::First, punct))
                } else {
                    None
                },
                _ => None,
            },
            _ => None,
        }
    }
}

/// [a] <-> [b]. |- a <-> b.   (`k` is `SetInt`; `SetExt` for `{a} <-> {b}`)
pub open spec fn spec_inf_struct_set(a: TermV, punct: EnumPunctation, k: ListKind) -> Option<(TermV, TvFn, EnumPunctation)> {
    if punct != EnumPunctation::JUGEMENT {
        None
    } else {
        match a {
            TermV::Stmt(Copula::SIM, s, p) => match (*s, *p) {
                (TermV::List(ks, sl), TermV::List(kp, pl)) => if ks == k && kp == k && sl.len() == 1 && pl.len() == 1 {
                    Some((TermV::Stmt(Copula::SIM, Box::new(sl[0]), Box::new(pl[0])), TvFn::First, EnumPunctation::JUGEMENT))
                } else {
                    None
                },
                _ => None,
            },
            _ => None,
        }
    }
}

/// all conclusions of the single premise rules, in the order the rules are tried
pub open spec fn spec_inf_single_premise(a: TermV, punct: EnumPunctation) -> Seq<(TermV, TvFn, EnumPunctation)> {
    opt_seq(spec_inf_neg(a, punct))
        + opt_seq(spec_inf_struct_subj1(a, punct, 0))
        + opt_seq(spec_inf_struct_subj1(a, punct, 1))
        + opt_seq(spec_inf_struct_subj1(a, punct, 2))
        + opt_seq(spec_inf_struct_pred1(a, punct, 0))
        + opt_seq(spec_inf_struct_pred1(a, punct, 1))
        + opt_seq(spec_inf_struct_pred1(a, punct, 2))
        + opt_seq(spec_inf_struct_prod0(a, punct))
        + opt_seq(spec_inf_struct_prod1(a, punct))
        + opt_seq(spec_inf_struct_img(a, punct, 0))
        + opt_seq(spec_inf_struct_img(a, punct, 1))
        + opt_seq(spec_inf_struct_set(a, punct, ListKind::SetInt))
        + opt_seq(spec_inf_struct_set(a, punct, ListKind::SetExt))
}

/// (!a) |- a
pub fn infNeg(a: &Term, punct: EnumPunctation) -> (res: Option<Concl>)
    ensures
        opt_concl_view(res) == spec_inf_neg(a@, punct),
{
    proof {
        reveal_with_fuel(Term::view_term, 3);
    }
    if punct != EnumPunctation::JUGEMENT {
        return None;
    }
    match a {
        Term::Neg(aterm) => {
            return Some(((**aterm).clone(), TvFn::NegFirst, EnumPunctation::JUGEMENT));
        },
        _ => {},
    }
    None
}

/// structural
/// a --> (X | Y).
/// |-
/// a --> X.
/// a --> Y.
/// ...
pub fn infStructPred1(a: &Term, punct: EnumPunctation, idx: usize) -> (res: Option<Concl>)
    ensures
        opt_concl_view(res) == spec_inf_struct_pred1(a@, punct, idx as int),
{
    proof {
        reveal_with_fuel(Term::view_term, 3);
    }
    if punct != EnumPunctation::JUGEMENT {
        return None;
    }
    match a {
        Term::Stmt(Copula::INH, subj, pred) => {
            match &**pred {
                Term::IntInt(arr) => {
                    proof {
                        lemma_view_list(arr@);
                    }
                    if idx < arr.len() {
                        let concl = Term::Stmt(Copula::INH, Box::new((**subj).clone()), Box::new((*arr[idx]).clone()));
                        return Some((concl, TvFn::First, EnumPunctation::JUGEMENT));
                    }
                },
                _ => {},
            }
        },
        _ => {},
    }
    None
}

/// structural
/// (X | Y) --> a.
/// |-
/// X --> a.
/// Y --> a.
/// ...
pub fn infStructSubj1(a: &Term, punct: EnumPunctation, idx: usize) -> (res: Option<Concl>)
    ensures
        opt_concl_view(res) == spec_inf_struct_subj1(a@, punct, idx as int),
{
    proof {
        reveal_with_fuel(Term::view_term, 3);
    }
    if punct != EnumPunctation::JUGEMENT {
        return None;
    }
    match a {
        Term::Stmt(Copula::INH, subj, pred) => {
            match &**subj {
                Term::IntInt(arr) => {
                    proof {
                        lemma_view_list(arr@);
                    }
                    if idx < arr.len() {
                        let concl = Term::Stmt(Copula::INH, Box::new((*arr[idx]).clone()), Box::new((**pred).clone()));
                        return Some((concl, TvFn::First, EnumPunctation::JUGEMENT));
                    }
                },
                _ => {},
            }
        },
        _ => {},
    }
    None
}

/// structural
/// (X * Y) --> rel.
/// |-
/// <X --> (rel /1 Y)>.
pub fn infStructProd0(a: &Term, punct: EnumPunctation) -> (res: Option<Concl>)
    requires
        is_prod_judgement(a@, punct) ==> prod_of(a@).len() >= 2,
    ensures
        opt_concl_view(res) == spec_inf_struct_prod0(a@, punct),
{
    proof {
        reveal_with_fuel(Term::view_term, 3);
    }
    if punct != EnumPunctation::JUGEMENT {
        return None;
    }
    match a {
        Term::Stmt(Copula::INH, prod, pred) => {
            match &**prod {
                Term::Prod(arr) => {
                    proof {
                        lemma_view_list(arr@);
                    }
                    let prod0 = (*arr[0]).clone();
                    let prod1 = (*arr[1]).clone();
                    let others = vec![Box::new(prod1)];
                    proof {
                        lemma_view_list_ext(others@, seq![Term::view_list(arr@)[1]]);
                    }
                    let img = Term::Img(Box::new((**pred).clone()), 0, others);
                    let concl = Term::Stmt(Copula::INH, Box::new(prod0), Box::new(img));
                    return Some((concl, TvFn::First, EnumPunctation::JUGEMENT));
                },
                _ => {},
            }
        },
        _ => {},
    }
    None
}

/// structural
/// (X * Y) --> rel.
/// |-
/// <Y --> (rel /2 X)>.
pub fn infStructProd1(a: &Term, punct: EnumPunctation) -> (res: Option<Concl>)
    ensures
        opt_concl_view(res) == spec_inf_struct_prod1(a@, punct),
{
    proof {
        reveal_with_fuel(Term::view_term, 3);
    }
    if punct != EnumPunctation::JUGEMENT {
        return None;
    }
    match a {
        Term::Stmt(Copula::INH, prod, pred) => {
            match &**prod {
                Term::Prod(arr) => {
                    proof {
                        lemma_view_list(arr@);
                    }
                    if arr.len() == 2 {
                        let prod0 = (*arr[0]).clone();
                        let prod1 = (*arr[1]).clone();
                        let others = vec![Box::new(prod0)];
                        proof {
                            lemma_view_list_ext(others@, seq![Term::view_list(arr@)[0]]);
                        }
                        let img = Term::Img(Box::new((**pred).clone()), 1, others);
                        let concl = Term::Stmt(Copula::INH, Box::new(prod1), Box::new(img));
                        return Some((concl, TvFn::First, EnumPunctation::JUGEMENT));
                    }
                },
                _ => {},
            }
        },
        _ => {},
    }
    None
}

/// structural
/// <X --> (rel /1 Y)>.?  |-  (X * Y) --> rel.   (`i` is 0)
/// <Y --> (rel /2 X)>.?  |-  (X * Y) --> rel.   (`i` is 1)
fn inf_struct_img(a: &Term, punct: EnumPunctation, i: usize) -> (res: Option<Concl>)
    requires
        i <= 1,
    ensures
        opt_concl_view(res) == spec_inf_struct_img(a@, punct, i),
{
    proof {
        reveal_with_fuel(Term::view_term, 2);
    }
    if punct != EnumPunctation::JUGEMENT && punct != EnumPunctation::QUESTION {
        return None;
    }
    match a {
        Term::Stmt(Copula::INH, subj, pred) => {
            match &**pred {
                Term::Img(predImg, idx, arr) => {
                    proof {
                        lemma_view_list(arr@);
                    }
                    if *idx == i && arr.len() == 1 {
                        let arr0 = (*arr[0]).clone();
                        let s = (**subj).clone();
                        let prod = if i == 0 { vec![Box::new(s), Box::new(arr0)] } else { vec![Box::new(arr0), Box::new(s)] };
                        proof {
                            let l = Term::view_list(arr@);
                            lemma_view_list_ext(prod@, if i == 0 { seq![(**subj)@, l[0]] } else { seq![l[0], (**subj)@] });
                        }
                        let prodTerm = Term::Prod(prod);
                        let img2 = (**predImg).clone();
                        assert(a@ == TermV::Stmt(Copula::INH, Box::new((**subj)@), Box::new((**pred)@)));
                        assert((**pred)@ == TermV::Img(Box::new((**predImg)@), *idx, Term::view_list(arr@)));
                        let concl = Term::Stmt(Copula::INH, Box::new(prodTerm), Box::new(img2));
                        return Some((concl, TvFn::First, punct));
                    }
                },
                _ => {},
            }
        },
        _ => {},
    }
    None
}

/// structural
/// <X --> (rel /1 Y)>.?
/// |-
/// (X * Y) --> rel.?
pub fn infStructImg0(a: &Term, punct: EnumPunctation) -> (res: Option<Concl>)
    ensures
        opt_concl_view(res) == spec_inf_struct_img(a@, punct, 0),
{
    inf_struct_img(a, punct, 0)
}

/// structural
/// <Y --> (rel /2 X)>.?
/// |-
/// (X * Y) --> rel.?
pub fn infStructImg1(a: &Term, punct: EnumPunctation) -> (res: Option<Concl>)
    ensures
        opt_concl_view(res) == spec_inf_struct_img(a@, punct, 1),
{
    inf_struct_img(a, punct, 1)
}

/// the single element of a one-element set of the given kind
fn single_of(t: &Term, k: ListKind) -> (res: Option<&Box<Term>>)
    requires
        k == ListKind::SetInt || k == ListKind::SetExt,
    ensures
        res is Some <==> (t@ matches TermV::List(kk, l) && kk == k && l.len() == 1),
        res matches Some(x) ==> (t@ matches TermV::List(_, l) && l[0] == x@),
{
    match t {
        Term::SetInt(set) if k == ListKind::SetInt => {
            proof {
                lemma_view_list(set@);
            }
            if set.len() == 1 {
                Some(&set[0])
            } else {
                None
            }
        },
        Term::SetExt(set) if k == ListKind::SetExt => {
            proof {
                lemma_view_list(set@);
            }
            if set.len() == 1 {
                Some(&set[0])
            } else {
                None
            }
        },
        _ => None,
    }
}

/// see ONA
/// [a] <-> [b]. |- a <-> b.   ({a} <-> {b}. |- a <-> b. for `SetExt`)
fn inf_struct_set(a: &Term, punctA: EnumPunctation, k: ListKind) -> (res: Option<Concl>)
    requires
        k == ListKind::SetInt || k == ListKind::SetExt,
    ensures
        opt_concl_view(res) == spec_inf_struct_set(a@, punctA, k),
{
    proof {
        reveal_with_fuel(Term::view_term, 3);
    }
    if punctA != EnumPunctation::JUGEMENT {
        return None;
    }
    match a {
        Term::Stmt(Copula::SIM, asubj2, apred2) => {
            match single_of(asubj2, k) {
                Some(asubj) => {
                    match single_of(apred2, k) {
                        Some(apred) => {
                            return Some((Term::Stmt(Copula::SIM, Box::new((**asubj).clone()), Box::new((**apred).clone())), TvFn::First, EnumPunctation::JUGEMENT));
                        },
                        None => {},
                    }
                },
                None => {},
            }
        },
        _ => {},
    }
    None
}

/// see ONA
/// [a] <-> [b]. |- a <-> b.
pub fn infStructSetInt(a: &Term, punctA: EnumPunctation) -> (res: Option<Concl>)
    ensures
        opt_concl_view(res) == spec_inf_struct_set(a@, punctA, ListKind::SetInt),
{
    inf_struct_set(a, punctA, ListKind::SetInt)
}

/// see ONA
/// {a} <-> {b}. |- a <-> b.
pub fn infStructSetExt(a: &Term, punctA: EnumPunctation) -> (res: Option<Concl>)
    ensures
        opt_concl_view(res) == spec_inf_struct_set(a@, punctA, ListKind::SetExt),
{
    inf_struct_set(a, punctA, ListKind::SetExt)
}

/// adds an optional conclusion to a list
fn push_opt(res: &mut Vec<Concl>, c: Option<Concl>)
    ensures
        concls_view(final(res)@) == concls_view(old(res)@) + opt_seq(opt_concl_view(c)),
{
    let ghost prev = res@;
    match c {
        Some(x) => {
            res.push(x);
            assert(concls_view(res@) =~= concls_view(prev) + opt_seq(opt_concl_view(c)));
        },
        None => {
            assert(concls_view(res@) =~= concls_view(prev) + opt_seq(opt_concl_view(c)));
        },
    }
}

/// all conclusions of the single premise rules
pub fn infSinglePremise(a: &Term, punct: EnumPunctation) -> (res: Vec<Concl>)
    requires
        is_prod_judgement(a@, punct) ==> prod_of(a@).len() >= 2,
    ensures
        concls_view(res@) == spec_inf_single_premise(a@, punct),
{
    let mut res: Vec<Concl> = Vec::new();
    assert(concls_view(res@) =~= Seq::<(TermV, TvFn, EnumPunctation)>::empty());
    push_opt(&mut res, infNeg(a, punct));
    push_opt(&mut res, infStructSubj1(a, punct, 0));
    push_opt(&mut res, infStructSubj1(a, punct, 1));
    push_opt(&mut res, infStructSubj1(a, punct, 2));
    push_opt(&mut res, infStructPred1(a, punct, 0));
    push_opt(&mut res, infStructPred1(a, punct, 1));
    push_opt(&mut res, infStructPred1(a, punct, 2));
    push_opt(&mut res, infStructProd0(a, punct));
    push_opt(&mut res, infStructProd1(a, punct));
    push_opt(&mut res, infStructImg0(a, punct));
    push_opt(&mut res, infStructImg1(a, punct));
    push_opt(&mut res, infStructSetInt(a, punct));
    push_opt(&mut res, infStructSetExt(a, punct));
    assert(concls_view(res@) =~= spec_inf_single_premise(a@, punct));
    res
}

/// Decomposing an intersection in the predicate: from the judgement
/// `a --> (X1 | ... | Xn)` the conclusion for element `idx` is `a --> Xidx`,
/// whose subject is the premise's subject and whose predicate is that
/// element; single premise inference gives it for each of the first three.
pub proof fn law_intersection_in_predicate(subj: TermV, arr: Seq<TermV>, idx: int)
    requires
        0 <= idx < arr.len(),
    ensures
        spec_inf_struct_pred1(inh(subj, TermV::List(ListKind::IntInt, arr)), EnumPunctation::JUGEMENT, idx)
            == Some((TermV::Stmt(Copula::INH, Box::new(subj), Box::new(arr[idx])), TvFn::First, EnumPunctation::JUGEMENT)),
        idx < 3 ==> spec_inf_single_premise(inh(subj, TermV::List(ListKind::IntInt, arr)), EnumPunctation::JUGEMENT).contains(
            (TermV::Stmt(Copula::INH, Box::new(subj), Box::new(arr[idx])), TvFn::First, EnumPunctation::JUGEMENT)),
{
    broadcast use vstd::seq_lib::lemma_seq_concat_contains_all_elements;
    let a = inh(subj, TermV::List(ListKind::IntInt, arr));
    let j = EnumPunctation::JUGEMENT;
    let c = (TermV::Stmt(Copula::INH, Box::new(subj), Box::new(arr[idx])), TvFn::First, j);
    if idx < 3 {
        let o = opt_seq(spec_inf_struct_pred1(a, j, idx));
        assert(o[0] == c);
        assert(o.contains(c));
        if idx == 0 {
            assert(spec_inf_single_premise(a, j).contains(c));
        } else if idx == 1 {
            assert(spec_inf_single_premise(a, j).contains(c));
        } else {
            assert(spec_inf_single_premise(a, j).contains(c));
        }
    }
}

/// Decomposing an intersection in the subject: from the judgement
/// `(X1 | ... | Xn) --> a` the conclusion for element `idx` is `Xidx --> a`,
/// whose subject is that element and whose predicate is the premise's
/// predicate; single premise inference gives it for each of the first three.
pub proof fn law_intersection_in_subject(pred: TermV, arr: Seq<TermV>, idx: int)
    requires
        0 <= idx < arr.len(),
    ensures
        spec_inf_struct_subj1(inh(TermV::List(ListKind::IntInt, arr), pred), EnumPunctation::JUGEMENT, idx)
            == Some((TermV::Stmt(Copula::INH, Box::new(arr[idx]), Box::new(pred)), TvFn::First, EnumPunctation::JUGEMENT)),
        idx < 3 ==> spec_inf_single_premise(inh(TermV::List(ListKind::IntInt, arr), pred), EnumPunctation::JUGEMENT).contains(
            (TermV::Stmt(Copula::INH, Box::new(arr[idx]), Box::new(pred)), TvFn::First, EnumPunctation::JUGEMENT)),
{
    broadcast use vstd::seq_lib::lemma_seq_concat_contains_all_elements;
    let a = inh(TermV::List(ListKind::IntInt, arr), pred);
    let j = EnumPunctation::JUGEMENT;
    let c = (TermV::Stmt(Copula::INH, Box::new(arr[idx]), Box::new(pred)), TvFn::First, j);
    if idx < 3 {
        let o = opt_seq(spec_inf_struct_subj1(a, j, idx));
        assert(o[0] == c);
        assert(o.contains(c));
        if idx == 0 {
            assert(spec_inf_single_premise(a, j).contains(c));
        } else if idx == 1 {
            assert(spec_inf_single_premise(a, j).contains(c));
        } else {
            assert(spec_inf_single_premise(a, j).contains(c));
        }
    }
}

// ---------------------------------------------------------------------------
// rules with two premises

/// the subject (side 1) or the predicate (other sides)
pub open spec fn sel(subj: TermV, pred: TermV, side: int) -> TermV {
    if side == 1 {
        subj
    } else {
        pred
    }
}

/// generalized rule with two judgement premises: the sides `aSide` of `a`
/// and `bSide` of `b` are the same term, the other sides differ and form
/// the conclusion
pub open spec fn spec_inf_generalized(
    a: TermV, punctA: EnumPunctation, b: TermV, punctB: EnumPunctation,
    aCopula: Copula, bCopula: Copula, conclCopula: Copula, aSide: int, bSide: int, tvFn: TvFn,
) -> Option<(TermV, TvFn, EnumPunctation)> {
    if punctA != EnumPunctation::JUGEMENT || punctB != EnumPunctation::JUGEMENT {
        None
    } else {
        match (a, b) {
            (TermV::Stmt(acop, asubj, apred), TermV::Stmt(bcop, bsubj, bpred)) => {
                if acop == aCopula && bcop == bCopula && sel(*asubj, *apred, aSide) == sel(*bsubj, *bpred, bSide)
                    && sel(*asubj, *apred, -aSide) != sel(*bsubj, *bpred, -bSide) {
                    Some((
                        TermV::Stmt(conclCopula, Box::new(sel(*asubj, *apred, -aSide)), Box::new(sel(*bsubj, *bpred, -bSide))),
                        tvFn,
                        EnumPunctation::JUGEMENT,
                    ))
                } else {
                    None
                }
            },
            _ => None,
        }
    }
}

/// a --> x.  a --> y.  |- x <-> y.  (`onPred`)
/// x --> a.  y --> a.  |- x <-> y.  (otherwise)
pub open spec fn spec_inf_comp(a: TermV, punctA: EnumPunctation, b: TermV, punctB: EnumPunctation, onPred: bool) -> Option<(TermV, TvFn, EnumPunctation)> {
    if punctA != EnumPunctation::JUGEMENT || punctB != EnumPunctation::JUGEMENT {
        None
    } else {
        match (a, b) {
            (TermV::Stmt(Copula::INH, asubj, apred), TermV::Stmt(Copula::INH, bsubj, bpred)) => {
                if onPred && apred != bpred && asubj == bsubj {
                    Some((TermV::Stmt(Copula::SIM, apred, bpred), TvFn::Comp, EnumPunctation::JUGEMENT))
                } else if !onPred && asubj != bsubj && apred == bpred {
                    Some((TermV::Stmt(Copula::SIM, asubj, bsubj), TvFn::Comp, EnumPunctation::JUGEMENT))
                } else {
                    None
                }
            },
            _ => None,
        }
    }
}

/// x --> [a].  x --> [b].  |- x --> [a b].
pub open spec fn spec_inf3(a: TermV, punctA: EnumPunctation, b: TermV, punctB: EnumPunctation) -> Option<(TermV, TvFn, EnumPunctation)> {
    if punctA != EnumPunctation::JUGEMENT || punctB != EnumPunctation::JUGEMENT {
        None
    } else {
        match (a, b) {
            (TermV::Stmt(Copula::INH, asubj, apred2), TermV::Stmt(Copula::INH, bsubj, bpred2)) => match (*apred2, *bpred2) {
                (TermV::List(ListKind::SetInt, apred), TermV::List(ListKind::SetInt, bpred)) => if asubj == bsubj {
                    Some((TermV::Stmt(Copula::INH, asubj, Box::new(TermV::List(ListKind::SetInt, apred + bpred))), TvFn::First, EnumPunctation::JUGEMENT))
                } else {
                    None
                },
                _ => None,
            },
            _ => None,
        }
    }
}

/// {a} --> x.  {b} --> x.  |- {a b} --> x.
pub open spec fn spec_inf4(a: TermV, punctA: EnumPunctation, b: TermV, punctB: EnumPunctation) -> Option<(TermV, TvFn, EnumPunctation)> {
    if punctA != EnumPunctation::JUGEMENT || punctB != EnumPunctation::JUGEMENT {
        None
    } else {
        match (a, b) {
            (TermV::Stmt(Copula::INH, asubj2, apred), TermV::Stmt(Copula::INH, bsubj2, bpred)) => match (*asubj2, *bsubj2) {
                (TermV::List(ListKind::SetExt, asubj), TermV::List(ListKind::SetExt, bsubj)) => if apred == bpred {
                    Some((TermV::Stmt(Copula::INH, Box::new(TermV::List(ListKind::SetExt, asubj + bsubj)), apred), TvFn::First, EnumPunctation::JUGEMENT))
                } else {
                    None
                },
                _ => None,
            },
            _ => None,
        }
    }
}

/// the terms of the list but the one at `skip`, with the assignments substituted
pub open spec fn subst_except(arr: Seq<TermV>, skip: int, asg: Seq<(TermV, TermV)>) -> Seq<TermV>
    decreases arr.len(),
{
    if arr.len() == 0 {
        Seq::empty()
    } else {
        let rest = subst_except(arr.drop_last(), skip, asg);
        if arr.len() - 1 == skip {
            rest
        } else {
            rest.push(subst_term(arr.last(), asg))
        }
    }
}

/// (a && b) ==> x.  unify a.  |- ded  b ==> x.
/// (`conjIdx` is the index of the conjunct that is unified)
pub open spec fn spec_inf5(a: TermV, punctA: EnumPunctation, b: TermV, punctB: EnumPunctation, conjIdx: int) -> Option<(TermV, TvFn, EnumPunctation)> {
    if punctA != EnumPunctation::JUGEMENT || punctB != EnumPunctation::JUGEMENT {
        None
    } else {
        match a {
            TermV::Stmt(Copula::IMPL, aconj, apred) => match *aconj {
                TermV::List(ListKind::Conj, arr) => if 0 <= conjIdx < arr.len() {
                    match unify_rec(arr[conjIdx], b, Seq::empty()) {
                        Some(asg) => {
                            let conclConj = subst_except(arr, conjIdx, asg);
                            let substPred = subst_term(*apred, asg);
                            let conclTerm = if conclConj.len() == 1 {
                                TermV::Stmt(Copula::IMPL, Box::new(conclConj[0]), Box::new(substPred))
                            } else {
                                TermV::Stmt(Copula::IMPL, Box::new(TermV::List(ListKind::Conj, conclConj)), Box::new(substPred))
                            };
                            Some((conclTerm, TvFn::Ded, EnumPunctation::JUGEMENT))
                        },
                        None => None,
                    }
                } else {
                    None
                },
                _ => None,
            },
            _ => None,
        }
    }
}

/// a ==> x.  unify a.  |- ded  x.
pub open spec fn spec_inf_impl_ded(a: TermV, punctA: EnumPunctation, b: TermV, punctB: EnumPunctation) -> Option<(TermV, TvFn, EnumPunctation)> {
    if punctA != EnumPunctation::JUGEMENT || punctB != EnumPunctation::JUGEMENT {
        None
    } else {
        match a {
            TermV::Stmt(Copula::IMPL, asubj, apred) => match unify_rec(*asubj, b, Seq::empty()) {
                Some(asg) => Some((subst_term(*apred, asg), TvFn::Ded, EnumPunctation::JUGEMENT)),
                None => None,
            },
            _ => None,
        }
    }
}

/// a ==> x?  unify x.  |-  a ==> x.
pub open spec fn spec_inf7(a: TermV, punctA: EnumPunctation, b: TermV, punctB: EnumPunctation) -> Option<(TermV, TvFn, EnumPunctation)> {
    if punctA != EnumPunctation::QUESTION || punctB != EnumPunctation::JUGEMENT {
        None
    } else {
        match a {
            TermV::Stmt(Copula::IMPL, _, apred) => match unify_rec(*apred, b, Seq::empty()) {
                Some(asg) => Some((subst_term(a, asg), TvFn::Second, EnumPunctation::JUGEMENT)),
                None => None,
            },
            _ => None,
        }
    }
}

/// the conclusions of the rules with `a` as first and `b` as second premise,
/// in the order the rules are tried
pub open spec fn spec_inf_binary_inner(a: TermV, aPunct: EnumPunctation, b: TermV, bPunct: EnumPunctation) -> Seq<(TermV, TvFn, EnumPunctation)> {
    opt_seq(spec_inf3(a, aPunct, b, bPunct))
        + opt_seq(spec_inf4(a, aPunct, b, bPunct))
        + opt_seq(spec_inf5(a, aPunct, b, bPunct, 0))
        + opt_seq(spec_inf5(a, aPunct, b, bPunct, 1))
        + opt_seq(spec_inf5(a, aPunct, b, bPunct, 2))
        + opt_seq(spec_inf5(a, aPunct, b, bPunct, 3))
        + opt_seq(spec_inf_impl_ded(a, aPunct, b, bPunct))
        + opt_seq(spec_inf7(a, aPunct, b, bPunct))
        + opt_seq(spec_inf_comp(a, aPunct, b, bPunct, true))
        + opt_seq(spec_inf_comp(a, aPunct, b, bPunct, false))
        + opt_seq(spec_inf_generalized(a, aPunct, b, bPunct, Copula::PREDIMPL, Copula::PREDIMPL, Copula::PREDIMPL, -1, 1, TvFn::Ded))
        + opt_seq(spec_inf_generalized(a, aPunct, b, bPunct, Copula::IMPL, Copula::IMPL, Copula::IMPL, -1, 1, TvFn::Ded))
        + opt_seq(spec_inf_generalized(a, aPunct, b, bPunct, Copula::INH, Copula::INH, Copula::INH, -1, 1, TvFn::Ded))
        + opt_seq(spec_inf_generalized(a, aPunct, b, bPunct, Copula::INH, Copula::INH, Copula::INH, -1, -1, TvFn::Abd))
        + opt_seq(spec_inf_generalized(a, aPunct, b, bPunct, Copula::INH, Copula::INH, Copula::INH, 1, 1, TvFn::Ind))
}

/// the conclusions of the rules with the premises in both orders; the truth
/// functions always take the truth value given with `a` as their first
/// argument and that given with `b` as their second, also for the rules
/// tried with `b` as the first premise
pub open spec fn spec_inf_binary(a: TermV, aPunct: EnumPunctation, b: TermV, bPunct: EnumPunctation) -> Seq<(TermV, TvFn, EnumPunctation)> {
    spec_inf_binary_inner(a, aPunct, b, bPunct) + spec_inf_binary_inner(b, bPunct, a, aPunct)
}

/// the subject (side 1) or the predicate (other sides)
fn selTerm<'a>(subj: &'a Box<Term>, pred: &'a Box<Term>, side: i32) -> (res: &'a Box<Term>)
    ensures
        res@ == sel(subj@, pred@, side as int),
{
    if side == 1 {
        subj
    } else {
        pred
    }
}

/// generalized rule with two judgement premises
/// works only when conclusion is composed out of a and b
pub fn infGeneralizedJudgJudg(
    a: &Term, punctA: EnumPunctation,
    b: &Term, punctB: EnumPunctation,
    aCopula: Copula,
    bCopula: Copula,
    conclCopula: Copula,
    aSide: i32,
    bSide: i32,
    tvFn: TvFn, // function for conclusion TV computation
) -> (res: Option<Concl>)
    requires
        aSide != i32::MIN,
        bSide != i32::MIN,
    ensures
        opt_concl_view(res) == spec_inf_generalized(a@, punctA, b@, punctB, aCopula, bCopula, conclCopula, aSide as int, bSide as int, tvFn),
{
    proof {
        reveal_with_fuel(Term::view_term, 2);
    }
    if punctA != EnumPunctation::JUGEMENT || punctB != EnumPunctation::JUGEMENT {
        return None;
    }
    match a {
        Term::Stmt(acop, asubj, apred) if *acop == aCopula => {
            match b {
                Term::Stmt(bcop, bsubj, bpred) if *bcop == bCopula => {
                    if checkEqTerm(selTerm(asubj, apred, aSide), selTerm(bsubj, bpred, bSide)) && // sides must be the same term
                        !checkEqTerm(selTerm(asubj, apred, -aSide), selTerm(bsubj, bpred, -bSide)) // other sides must not be equal!
                    {
                        let s = (**selTerm(asubj, apred, -aSide)).clone();
                        let p = (**selTerm(bsubj, bpred, -bSide)).clone();
                        return Some((Term::Stmt(conclCopula, Box::new(s), Box::new(p)), tvFn, EnumPunctation::JUGEMENT));
                    }
                },
                _ => {},
            }
        },
        _ => {},
    }
    None
}

/// a --> x.  a --> y.  |- x <-> y.
pub fn infCompPred(a: &Term, punctA: EnumPunctation, b: &Term, punctB: EnumPunctation) -> (res: Option<Concl>)
    ensures
        opt_concl_view(res) == spec_inf_comp(a@, punctA, b@, punctB, true),
{
    proof {
        reveal_with_fuel(Term::view_term, 2);
    }
    if punctA != EnumPunctation::JUGEMENT || punctB != EnumPunctation::JUGEMENT {
        return None;
    }
    match a {
        Term::Stmt(Copula::INH, asubj, apred) => {
            match b {
                Term::Stmt(Copula::INH, bsubj, bpred) => {
                    if !checkEqTerm(apred, bpred) && checkEqTerm(asubj, bsubj) {
                        return Some((Term::Stmt(Copula::SIM, Box::new((**apred).clone()), Box::new((**bpred).clone())), TvFn::Comp, EnumPunctation::JUGEMENT));
                    }
                },
                _ => {},
            }
        },
        _ => {},
    }
    None
}

/// x --> a.  y --> a.  |- x <-> y.
pub fn infCompSubj(a: &Term, punctA: EnumPunctation, b: &Term, punctB: EnumPunctation) -> (res: Option<Concl>)
    ensures
        opt_concl_view(res) == spec_inf_comp(a@, punctA, b@, punctB, false),
{
    proof {
        reveal_with_fuel(Term::view_term, 2);
    }
    if punctA != EnumPunctation::JUGEMENT || punctB != EnumPunctation::JUGEMENT {
        return None;
    }
    match a {
        Term::Stmt(Copula::INH, asubj, apred) => {
            match b {
                Term::Stmt(Copula::INH, bsubj, bpred) => {
                    if !checkEqTerm(asubj, bsubj) && checkEqTerm(apred, bpred) {
                        return Some((Term::Stmt(Copula::SIM, Box::new((**asubj).clone()), Box::new((**bsubj).clone())), TvFn::Comp, EnumPunctation::JUGEMENT));
                    }
                },
                _ => {},
            }
        },
        _ => {},
    }
    None
}

/// x --> [a].  x --> [b].  |- x --> [a b].
pub fn inf3(a: &Term, punctA: EnumPunctation, b: &Term, punctB: EnumPunctation) -> (res: Option<Concl>)
    ensures
        opt_concl_view(res) == spec_inf3(a@, punctA, b@, punctB),
{
    proof {
        reveal_with_fuel(Term::view_term, 2);
    }
    if punctA != EnumPunctation::JUGEMENT || punctB != EnumPunctation::JUGEMENT {
        return None;
    }
    match a {
        Term::Stmt(Copula::INH, asubj, apred2) => {
            match &**apred2 {
                Term::SetInt(apred) => {
                    match b {
                        Term::Stmt(Copula::INH, bsubj, bpred2) => {
                            match &**bpred2 {
                                Term::SetInt(bpred) => {
                                    if checkEqTerm(asubj, bsubj) {
                                        // build result set
                                        let union_ = concat_lists(apred, bpred);
                                        let resTerm = Term::SetInt(union_);
                                        return Some((Term::Stmt(Copula::INH, Box::new((**asubj).clone()), Box::new(resTerm)), TvFn::First, EnumPunctation::JUGEMENT));
                                    }
                                },
                                _ => {},
                            }
                        },
                        _ => {},
                    }
                },
                _ => {},
            }
        },
        _ => {},
    }
    None
}

/// {a} --> x.  {b} --> x.  |- {a b} --> x.
pub fn inf4(a: &Term, punctA: EnumPunctation, b: &Term, punctB: EnumPunctation) -> (res: Option<Concl>)
    ensures
        opt_concl_view(res) == spec_inf4(a@, punctA, b@, punctB),
{
    proof {
        reveal_with_fuel(Term::view_term, 2);
    }
    if punctA != EnumPunctation::JUGEMENT || punctB != EnumPunctation::JUGEMENT {
        return None;
    }
    match a {
        Term::Stmt(Copula::INH, asubj2, apred) => {
            match &**asubj2 {
                Term::SetExt(asubj) => {
                    match b {
                        Term::Stmt(Copula::INH, bsubj2, bpred) => {
                            match &**bsubj2 {
                                Term::SetExt(bsubj) => {
                                    if checkEqTerm(apred, bpred) {
                                        // build result set
                                        let union_ = concat_lists(asubj, bsubj);
                                        let resTerm = Term::SetExt(union_);
                                        return Some((Term::Stmt(Copula::INH, Box::new(resTerm), Box::new((**apred).clone())), TvFn::First, EnumPunctation::JUGEMENT));
                                    }
                                },
                                _ => {},
                            }
                        },
                        _ => {},
                    }
                },
                _ => {},
            }
        },
        _ => {},
    }
    None
}

proof fn lemma_subst_except_step(arr: Seq<TermV>, skip: int, asg: Seq<(TermV, TermV)>, i: int)
    requires
        0 <= i < arr.len(),
    ensures
        subst_except(arr.subrange(0, i + 1), skip, asg) == if i == skip {
            subst_except(arr.subrange(0, i), skip, asg)
        } else {
            subst_except(arr.subrange(0, i), skip, asg).push(subst_term(arr[i], asg))
        },
{
    assert(arr.subrange(0, i + 1).drop_last() =~= arr.subrange(0, i));
}

/// see https://cis.temple.edu/~pwang/Writing/NAL-Specification.pdf?page=50
/// (a && b) ==> x.
/// unify a.
/// |- ded
/// b ==> x.
pub fn inf5(a: &Term, punctA: EnumPunctation, b: &Term, punctB: EnumPunctation, conjIdx: usize) -> (res: Option<Concl>)
    ensures
        opt_concl_view(res) == spec_inf5(a@, punctA, b@, punctB, conjIdx as int),
{
    proof {
        reveal_with_fuel(Term::view_term, 2);
    }
    if punctA != EnumPunctation::JUGEMENT || punctB != EnumPunctation::JUGEMENT {
        return None;
    }
    match a {
        Term::Stmt(Copula::IMPL, aconj, apred) => {
            match &**aconj {
                Term::Conj(arr) => {
                    let ghost l = Term::view_list(arr@);
                    proof {
                        lemma_view_list(arr@);
                    }
                    if conjIdx < arr.len() { // index in conj must be in bounds
                        let unifyRes = unify(&arr[conjIdx], b);
                        match unifyRes {
                            Some(unifyVal) => { // vars must unify
                                let ghost asg = asg_view(unifyVal@);
                                let mut conclConj: Vec<Box<Term>> = Vec::new(); // array of conjunction of result
                                let mut idx2: usize = 0;
                                proof {
                                    assert(subst_except(l.subrange(0, 0), conjIdx as int, asg) =~= Seq::<TermV>::empty());
                                    lemma_view_list_ext(conclConj@, Seq::<TermV>::empty());
                                }
                                while idx2 < arr.len()
                                    invariant
                                        idx2 <= arr.len(),
                                        l == Term::view_list(arr@),
                                        l.len() == arr.len(),
                                        forall|j: int| 0 <= j < arr.len() ==> l[j] == arr@[j].view_term(),
                                        asg == asg_view(unifyVal@),
                                        Term::view_list(conclConj@) == subst_except(l.subrange(0, idx2 as int), conjIdx as int, asg),
                                    decreases arr.len() - idx2,
                                {
                                    proof {
                                        lemma_subst_except_step(l, conjIdx as int, asg, idx2 as int);
                                        lemma_view_list(conclConj@);
                                    }
                                    if idx2 != conjIdx { // skip the unified subterm!
                                        let subst = unifySubst(&arr[idx2], &unifyVal); // substitute vars
                                        let ghost prev = conclConj@;
                                        conclConj.push(Box::new(subst));
                                        proof {
                                            assert(conclConj@.subrange(0, conclConj@.len() - 1) =~= prev);
                                        }
                                    }
                                    idx2 += 1;
                                }
                                proof {
                                    assert(l.subrange(0, arr.len() as int) =~= l);
                                    lemma_view_list(conclConj@);
                                }

                                let substPred = unifySubst(apred, &unifyVal); // substitute vars

                                let conclTerm = if conclConj.len() == 1 {
                                    Term::Stmt(Copula::IMPL, Box::new((*conclConj[0]).clone()), Box::new(substPred)) // build implication with single term
                                } else {
                                    Term::Stmt(Copula::IMPL, Box::new(Term::Conj(conclConj)), Box::new(substPred)) // build implication with conjunction
                                };

                                return Some((conclTerm, TvFn::Ded, EnumPunctation::JUGEMENT));
                            },
                            None => {},
                        }
                    }
                },
                _ => {},
            }
        },
        _ => {},
    }
    None
}

/// see https://cis.temple.edu/~pwang/Writing/NAL-Specification.pdf?page=42
/// a ==> x.
/// unify a.
/// |- ded
/// x.
pub fn infImplDed(a: &Term, punctA: EnumPunctation, b: &Term, punctB: EnumPunctation) -> (res: Option<Concl>)
    ensures
        opt_concl_view(res) == spec_inf_impl_ded(a@, punctA, b@, punctB),
{
    proof {
        reveal_with_fuel(Term::view_term, 2);
    }
    if punctA != EnumPunctation::JUGEMENT || punctB != EnumPunctation::JUGEMENT {
        return None;
    }
    match a {
        Term::Stmt(Copula::IMPL, asubj, apred) => {
            let unifyRes = unify(asubj, b);
            match unifyRes { // vars must unify
                Some(v) => {
                    let subst = unifySubst(apred, &v); // substitute vars
                    Some((subst, TvFn::Ded, EnumPunctation::JUGEMENT))
                },
                None => None,
            }
        },
        _ => None,
    }
}

/// necessary for symbolic manipulation
/// a ==> x?
/// unify x.
/// |-
/// a ==> x.
pub fn inf7(a: &Term, punctA: EnumPunctation, b: &Term, punctB: EnumPunctation) -> (res: Option<Concl>)
    ensures
        opt_concl_view(res) == spec_inf7(a@, punctA, b@, punctB),
{
    proof {
        reveal_with_fuel(Term::view_term, 2);
    }
    if punctA != EnumPunctation::QUESTION || punctB != EnumPunctation::JUGEMENT {
        return None;
    }
    match a {
        Term::Stmt(Copula::IMPL, _, apred) => {
            let unifyRes = unify(apred, b);
            match unifyRes { // vars must unify
                Some(v) => {
                    let subst = unifySubst(a, &v); // substitute vars
                    Some((subst, TvFn::Second, EnumPunctation::JUGEMENT))
                },
                None => None,
            }
        },
        _ => None,
    }
}

/// adds an optional conclusion to a list, noting that a rule was applied
fn push_rule(res: &mut Vec<Concl>, c: Option<Concl>, wereRulesApplied: &mut bool)
    ensures
        concls_view(final(res)@) == concls_view(old(res)@) + opt_seq(opt_concl_view(c)),
        *final(wereRulesApplied) == (*old(wereRulesApplied) || c is Some),
{
    if c.is_some() {
        *wereRulesApplied = true;
    }
    push_opt(res, c);
}

/// do binary inference with `a` as the first premise
#[verifier::spinoff_prover]
#[verifier::rlimit(40)]
pub fn infBinaryInner(a: &Term, aPunct: EnumPunctation, b: &Term, bPunct: EnumPunctation, wereRulesApplied: &mut bool) -> (res: Vec<Concl>)
    ensures
        concls_view(res@) == spec_inf_binary_inner(a@, aPunct, b@, bPunct),
        *final(wereRulesApplied) == (*old(wereRulesApplied) || res.len() > 0),
{
    let mut res: Vec<Concl> = Vec::new();
    assert(concls_view(res@) =~= Seq::<(TermV, TvFn, EnumPunctation)>::empty());
    push_rule(&mut res, inf3(a, aPunct, b, bPunct), wereRulesApplied);
    push_rule(&mut res, inf4(a, aPunct, b, bPunct), wereRulesApplied);
    push_rule(&mut res, inf5(a, aPunct, b, bPunct, 0), wereRulesApplied);
    push_rule(&mut res, inf5(a, aPunct, b, bPunct, 1), wereRulesApplied);
    push_rule(&mut res, inf5(a, aPunct, b, bPunct, 2), wereRulesApplied);
    push_rule(&mut res, inf5(a, aPunct, b, bPunct, 3), wereRulesApplied);
    push_rule(&mut res, infImplDed(a, aPunct, b, bPunct), wereRulesApplied);
    push_rule(&mut res, inf7(a, aPunct, b, bPunct), wereRulesApplied);
    push_rule(&mut res, infCompPred(a, aPunct, b, bPunct), wereRulesApplied);
    push_rule(&mut res, infCompSubj(a, aPunct, b, bPunct), wereRulesApplied);
    // S =/> M, M =/> P |-ded S =/> P
    push_rule(&mut res, infGeneralizedJudgJudg(a, aPunct, b, bPunct, Copula::PREDIMPL, Copula::PREDIMPL, Copula::PREDIMPL, -1, 1, TvFn::Ded), wereRulesApplied);
    // S ==> M, M ==> P |-ded S ==> P
    push_rule(&mut res, infGeneralizedJudgJudg(a, aPunct, b, bPunct, Copula::IMPL, Copula::IMPL, Copula::IMPL, -1, 1, TvFn::Ded), wereRulesApplied);
    // S --> M, M --> P |-ded S --> P
    push_rule(&mut res, infGeneralizedJudgJudg(a, aPunct, b, bPunct, Copula::INH, Copula::INH, Copula::INH, -1, 1, TvFn::Ded), wereRulesApplied);
    // S --> M, P --> M |-abd S --> P
    push_rule(&mut res, infGeneralizedJudgJudg(a, aPunct, b, bPunct, Copula::INH, Copula::INH, Copula::INH, -1, -1, TvFn::Abd), wereRulesApplied);
    // M --> S, M --> P |-ind S --> P
    push_rule(&mut res, infGeneralizedJudgJudg(a, aPunct, b, bPunct, Copula::INH, Copula::INH, Copula::INH, 1, 1, TvFn::Ind), wereRulesApplied);
    assert(concls_view(res@) =~= spec_inf_binary_inner(a@, aPunct, b@, bPunct));
    res
}

/// do binary inference: the rules with the premises in both orders
/// /param wereRulesApplied is true if any rules were applied
pub fn infBinary(a: &Term, aPunct: EnumPunctation, b: &Term, bPunct: EnumPunctation, wereRulesApplied: &mut bool) -> (res: Vec<Concl>)
    ensures
        concls_view(res@) == spec_inf_binary(a@, aPunct, b@, bPunct),
        *final(wereRulesApplied) == (res.len() > 0),
{
    *wereRulesApplied = false; // because no rules were applied yet
    let mut res = infBinaryInner(a, aPunct, b, bPunct, wereRulesApplied);
    let mut res2 = infBinaryInner(b, bPunct, a, aPunct, wereRulesApplied);
    let ghost r1 = res@;
    let ghost r2 = res2@;
    res.append(&mut res2);
    assert(concls_view(res@) =~= concls_view(r1) + concls_view(r2));
    res
}

/// Binary inference does not depend on the order of the premises: with the
/// premises exchanged it gives the same conclusions, with the same truth
/// function tags, in another order. (The tags take the truth value given
/// first as their first argument.)
pub proof fn law_inf_binary_symmetric(a: TermV, aPunct: EnumPunctation, b: TermV, bPunct: EnumPunctation)
    ensures
        spec_inf_binary(b, bPunct, a, aPunct).to_multiset() == spec_inf_binary(a, aPunct, b, bPunct).to_multiset(),
{
    let x = spec_inf_binary_inner(a, aPunct, b, bPunct);
    let y = spec_inf_binary_inner(b, bPunct, a, aPunct);
    vstd::seq_lib::lemma_multiset_commutative(x, y);
    vstd::seq_lib::lemma_multiset_commutative(y, x);
}

/// Abduction: from two judgements `S --> M` and `P --> M` that share their
/// predicate and have different subjects, binary inference concludes
/// `S --> P` and `P --> S`, each with the abduction truth function.
pub proof fn law_abduction_shared_predicate(s: TermV, p: TermV, m: TermV)
    requires
        s != p,
    ensures
        spec_inf_binary(inh(s, m), EnumPunctation::JUGEMENT, inh(p, m), EnumPunctation::JUGEMENT).contains(
            (TermV::Stmt(Copula::INH, Box::new(s), Box::new(p)), TvFn::Abd, EnumPunctation::JUGEMENT)),
        spec_inf_binary(inh(s, m), EnumPunctation::JUGEMENT, inh(p, m), EnumPunctation::JUGEMENT).contains(
            (TermV::Stmt(Copula::INH, Box::new(p), Box::new(s)), TvFn::Abd, EnumPunctation::JUGEMENT)),
{
    broadcast use vstd::seq_lib::lemma_seq_concat_contains_all_elements;
    let a = inh(s, m);
    let b = inh(p, m);
    let j = EnumPunctation::JUGEMENT;
    let g1 = spec_inf_generalized(a, j, b, j, Copula::INH, Copula::INH, Copula::INH, -1, -1, TvFn::Abd);
    let g2 = spec_inf_generalized(b, j, a, j, Copula::INH, Copula::INH, Copula::INH, -1, -1, TvFn::Abd);
    assert(opt_seq(g1)[0] == (TermV::Stmt(Copula::INH, Box::new(s), Box::new(p)), TvFn::Abd, j));
    assert(opt_seq(g2)[0] == (TermV::Stmt(Copula::INH, Box::new(p), Box::new(s)), TvFn::Abd, j));
    assert(opt_seq(g1).contains(opt_seq(g1)[0]));
    assert(opt_seq(g2).contains(opt_seq(g2)[0]));
    assert(spec_inf_binary_inner(a, j, b, j).contains(opt_seq(g1)[0]));
    assert(spec_inf_binary_inner(b, j, a, j).contains(opt_seq(g2)[0]));
}

/// Deduction: from `S --> M` and `M --> P` with `S` and `P` different,
/// binary inference concludes `S --> P` with the deduction truth function.
pub proof fn law_deduction_chain(s: TermV, m: TermV, p: TermV)
    requires
        s != p,
    ensures
        spec_inf_binary(inh(s, m), EnumPunctation::JUGEMENT, inh(m, p), EnumPunctation::JUGEMENT).contains(
            (TermV::Stmt(Copula::INH, Box::new(s), Box::new(p)), TvFn::Ded, EnumPunctation::JUGEMENT)),
{
    broadcast use vstd::seq_lib::lemma_seq_concat_contains_all_elements;
    let a = inh(s, m);
    let b = inh(m, p);
    let j = EnumPunctation::JUGEMENT;
    let g = spec_inf_generalized(a, j, b, j, Copula::INH, Copula::INH, Copula::INH, -1, 1, TvFn::Ded);
    assert(opt_seq(g)[0] == (TermV::Stmt(Copula::INH, Box::new(s), Box::new(p)), TvFn::Ded, j));
    assert(opt_seq(g).contains(opt_seq(g)[0]));
    assert(spec_inf_binary_inner(a, j, b, j).contains(opt_seq(g)[0]));
}

/// Induction and comparison: from `M --> S` and `M --> P` that share their
/// subject and have different predicates, binary inference concludes
/// `S --> P` and `P --> S` with the induction truth function, and `S <-> P`
/// with the comparison truth function.
pub proof fn law_induction_shared_subject(m: TermV, s: TermV, p: TermV)
    requires
        s != p,
    ensures
        spec_inf_binary(inh(m, s), EnumPunctation::JUGEMENT, inh(m, p), EnumPunctation::JUGEMENT).contains(
            (TermV::Stmt(Copula::INH, Box::new(s), Box::new(p)), TvFn::Ind, EnumPunctation::JUGEMENT)),
        spec_inf_binary(inh(m, s), EnumPunctation::JUGEMENT, inh(m, p), EnumPunctation::JUGEMENT).contains(
            (TermV::Stmt(Copula::INH, Box::new(p), Box::new(s)), TvFn::Ind, EnumPunctation::JUGEMENT)),
        spec_inf_binary(inh(m, s), EnumPunctation::JUGEMENT, inh(m, p), EnumPunctation::JUGEMENT).contains(
            (TermV::Stmt(Copula::SIM, Box::new(s), Box::new(p)), TvFn::Comp, EnumPunctation::JUGEMENT)),
{
    broadcast use vstd::seq_lib::lemma_seq_concat_contains_all_elements;
    let a = inh(m, s);
    let b = inh(m, p);
    let j = EnumPunctation::JUGEMENT;
    let g1 = spec_inf_generalized(a, j, b, j, Copula::INH, Copula::INH, Copula::INH, 1, 1, TvFn::Ind);
    let g2 = spec_inf_generalized(b, j, a, j, Copula::INH, Copula::INH, Copula::INH, 1, 1, TvFn::Ind);
    let c = spec_inf_comp(a, j, b, j, true);
    assert(opt_seq(g1)[0] == (TermV::Stmt(Copula::INH, Box::new(s), Box::new(p)), TvFn::Ind, j));
    assert(opt_seq(g2)[0] == (TermV::Stmt(Copula::INH, Box::new(p), Box::new(s)), TvFn::Ind, j));
    assert(opt_seq(c)[0] == (TermV::Stmt(Copula::SIM, Box::new(s), Box::new(p)), TvFn::Comp, j));
    assert(opt_seq(g1).contains(opt_seq(g1)[0]));
    assert(opt_seq(g2).contains(opt_seq(g2)[0]));
    assert(opt_seq(c).contains(opt_seq(c)[0]));
    assert(spec_inf_binary_inner(a, j, b, j).contains(opt_seq(g1)[0]));
    assert(spec_inf_binary_inner(a, j, b, j).contains(opt_seq(c)[0]));
    assert(spec_inf_binary_inner(b, j, a, j).contains(opt_seq(g2)[0]));
}

// ---------------------------------------------------------------------------
// inference on sentences

/// a premise: the term, punctuation and stamp of a sentence
pub struct Premise {
    pub term: Term,
    pub punct: EnumPunctation,
    pub stamp: Stamp,
}

/// a derived sentence: its term, the truth function that gives its truth
/// value, its punctuation and its stamp
pub struct Derived {
    pub term: Term,
    pub tvFn: TvFn,
    pub punct: EnumPunctation,
    pub stamp: Stamp,
}

/// the model of a derived sentence
pub open spec fn derived_view(d: Derived) -> (TermV, TvFn, EnumPunctation, Seq<i64>) {
    (d.term@, d.tvFn, d.punct, d.stamp.ids@)
}

/// models of a list of derived sentences
pub open spec fn deriveds_view(v: Seq<Derived>) -> Seq<(TermV, TvFn, EnumPunctation, Seq<i64>)> {
    v.map_values(|d: Derived| derived_view(d))
}

/// the conclusions, each with the stamp `ids`
pub open spec fn with_stamp(c: Seq<(TermV, TvFn, EnumPunctation)>, ids: Seq<i64>) -> Seq<(TermV, TvFn, EnumPunctation, Seq<i64>)> {
    c.map_values(|x: (TermV, TvFn, EnumPunctation)| (x.0, x.1, x.2, ids))
}

/// the sentences derived from two premises: the conclusions of binary
/// inference with the merged stamp, or none where the stamps overlap
pub open spec fn spec_inference(a: TermV, aPunct: EnumPunctation, aIds: Seq<i64>, b: TermV, bPunct: EnumPunctation, bIds: Seq<i64>) -> Seq<(TermV, TvFn, EnumPunctation, Seq<i64>)> {
    if overlap(aIds, bIds) {
        Seq::empty()
    } else {
        with_stamp(spec_inf_binary(a, aPunct, b, bPunct), merged_ids(aIds, bIds))
    }
}

/// turns conclusions into derived sentences, each with a copy of `stamp`
fn stamp_all(c: Vec<Concl>, stamp: &Stamp) -> (res: Vec<Derived>)
    ensures
        deriveds_view(res@) == with_stamp(concls_view(c@), stamp.ids@),
{
    let mut res: Vec<Derived> = Vec::new();
    let mut i: usize = 0;
    let n = c.len();
    while i < n
        invariant
            n == c.len(),
            i <= n,
            deriveds_view(res@) == with_stamp(concls_view(c@.take(i as int)), stamp.ids@),
        decreases n - i,
    {
        let term = c[i].0.clone();
        let tvFn = c[i].1;
        let punct = c[i].2;
        proof {
            assert(c@.take(i + 1) =~= c@.take(i as int).push(c@[i as int]));
            assert(concls_view(c@.take(i + 1)) =~= concls_view(c@.take(i as int)).push(concl_view(c@[i as int])));
        }
        let d = Derived { term: term, tvFn: tvFn, punct: punct, stamp: stamp.clone() };
        let ghost prev = res@;
        res.push(d);
        proof {
            assert(deriveds_view(res@) =~= deriveds_view(prev).push(derived_view(d)));
            assert(with_stamp(concls_view(c@.take(i + 1)), stamp.ids@) =~= with_stamp(concls_view(c@.take(i as int)), stamp.ids@).push((c@[i as int].0@, c@[i as int].1, c@[i as int].2, stamp.ids@)));
        }
        i += 1;
    }
    assert(c@.take(n as int) =~= c@);
    res
}

/// do inference of two sentences, given by their parts
/// /param wereRulesApplied is true if any rules were applied
pub fn inference2(
    paTerm: &Term, paPunct: EnumPunctation, paStamp: &Stamp,
    pbTerm: &Term, pbPunct: EnumPunctation, pbStamp: &Stamp,
    wereRulesApplied: &mut bool,
) -> (res: Vec<Derived>)
    ensures
        deriveds_view(res@) == spec_inference(paTerm@, paPunct, paStamp.ids@, pbTerm@, pbPunct, pbStamp.ids@),
        *final(wereRulesApplied) == (spec_inf_binary(paTerm@, paPunct, pbTerm@, pbPunct).len() > 0),
{
    let infConcl = infBinary(paTerm, paPunct, pbTerm, pbPunct, wereRulesApplied);
    let merged = merge(paStamp, pbStamp);
    let n = infConcl.len();
    let concl = stamp_all(infConcl, &merged);
    if n > 0 && checkOverlap(paStamp, pbStamp) {
        // no conclusions where the evidence of the premises overlaps
        return Vec::new();
    }
    proof {
        if overlap(paStamp.ids@, pbStamp.ids@) {
            assert(n == 0);
            assert(deriveds_view(concl@) =~= Seq::empty());
        }
    }
    concl
}

/// do inference of two sentences
/// /param wereRulesApplied is true if any rules were applied
pub fn inference(pa: &Premise, pb: &Premise, wereRulesApplied: &mut bool) -> (res: Vec<Derived>)
    ensures
        deriveds_view(res@) == spec_inference(pa.term@, pa.punct, pa.stamp.ids@, pb.term@, pb.punct, pb.stamp.ids@),
        *final(wereRulesApplied) == (spec_inf_binary(pa.term@, pa.punct, pb.term@, pb.punct).len() > 0),
{
    inference2(&pa.term, pa.punct, &pa.stamp, &pb.term, pb.punct, &pb.stamp, wereRulesApplied)
}

/// the sentences derived from one sentence: the conclusions of single
/// premise inference, each with the stamp of the premise
pub fn infSinglePremise2(pa: &Premise) -> (res: Vec<Derived>)
    requires
        is_prod_judgement(pa.term@, pa.punct) ==> prod_of(pa.term@).len() >= 2,
    ensures
        deriveds_view(res@) == with_stamp(spec_inf_single_premise(pa.term@, pa.punct), pa.stamp.ids@),
{
    let infConcl = infSinglePremise(&pa.term, pa.punct);
    stamp_all(infConcl, &pa.stamp)
}

/// The evidence of a derived sentence is that of its premises: nothing is
/// derived from premises whose evidence overlaps, and each derived sentence
/// has the merged stamp, which holds only ids of the premises and at most
/// `MAX_STAMP_IDS` of them.
pub proof fn law_derived_evidence(a: TermV, aPunct: EnumPunctation, aIds: Seq<i64>, b: TermV, bPunct: EnumPunctation, bIds: Seq<i64>)
    ensures
        overlap(aIds, bIds) ==> spec_inference(a, aPunct, aIds, b, bPunct, bIds).len() == 0,
        forall|k: int| 0 <= k < spec_inference(a, aPunct, aIds, b, bPunct, bIds).len() ==> {
            let ids = #[trigger] spec_inference(a, aPunct, aIds, b, bPunct, bIds)[k].3;
            &&& ids == merged_ids(aIds, bIds)
            &&& ids.len() <= MAX_STAMP_IDS
            &&& forall|i: int| 0 <= i < ids.len() ==> aIds.contains(#[trigger] ids[i]) || bIds.contains(ids[i])
        },
{
    law_merge_ids(aIds, bIds);
}

/// every conclusion is a judgement
pub open spec fn all_judgements(c: Seq<(TermV, TvFn, EnumPunctation)>) -> bool {
    forall|k: int| 0 <= k < c.len() ==> (#[trigger] c[k]).2 == EnumPunctation::JUGEMENT
}

/// a judgement or no conclusion gives only judgements
proof fn lemma_opt_judgement(o: Option<(TermV, TvFn, EnumPunctation)>)
    requires
        o matches Some(c) ==> c.2 == EnumPunctation::JUGEMENT,
    ensures
        all_judgements(opt_seq(o)),
{
}

/// two lists of judgements give a list of judgements
proof fn lemma_concat_judgements(x: Seq<(TermV, TvFn, EnumPunctation)>, y: Seq<(TermV, TvFn, EnumPunctation)>)
    requires
        all_judgements(x),
        all_judgements(y),
    ensures
        all_judgements(x + y),
{
    assert forall|k: int| 0 <= k < (x + y).len() implies (#[trigger] (x + y)[k]).2 == EnumPunctation::JUGEMENT by {
        if k < x.len() {
            assert((x + y)[k] == x[k]);
        } else {
            assert((x + y)[k] == y[k - x.len()]);
        }
    }
}

/// the rules tried in one order give judgements only
proof fn lemma_inner_judgements(a: TermV, aPunct: EnumPunctation, b: TermV, bPunct: EnumPunctation)
    ensures
        all_judgements(spec_inf_binary_inner(a, aPunct, b, bPunct)),
{
    let r0a = opt_seq(spec_inf3(a, aPunct, b, bPunct));
    let r0b = opt_seq(spec_inf4(a, aPunct, b, bPunct));
    let r0 = r0a + r0b;
    let r1 = opt_seq(spec_inf5(a, aPunct, b, bPunct, 0));
    let r2 = opt_seq(spec_inf5(a, aPunct, b, bPunct, 1));
    let r3 = opt_seq(spec_inf5(a, aPunct, b, bPunct, 2));
    let r4 = opt_seq(spec_inf5(a, aPunct, b, bPunct, 3));
    let r5 = opt_seq(spec_inf_impl_ded(a, aPunct, b, bPunct));
    let r6 = opt_seq(spec_inf7(a, aPunct, b, bPunct));
    let r7 = opt_seq(spec_inf_comp(a, aPunct, b, bPunct, true));
    let r8 = opt_seq(spec_inf_comp(a, aPunct, b, bPunct, false));
    let r9 = opt_seq(spec_inf_generalized(a, aPunct, b, bPunct, Copula::PREDIMPL, Copula::PREDIMPL, Copula::PREDIMPL, -1, 1, TvFn::Ded));
    let r10 = opt_seq(spec_inf_generalized(a, aPunct, b, bPunct, Copula::IMPL, Copula::IMPL, Copula::IMPL, -1, 1, TvFn::Ded));
    let r11 = opt_seq(spec_inf_generalized(a, aPunct, b, bPunct, Copula::INH, Copula::INH, Copula::INH, -1, 1, TvFn::Ded));
    let r12 = opt_seq(spec_inf_generalized(a, aPunct, b, bPunct, Copula::INH, Copula::INH, Copula::INH, -1, -1, TvFn::Abd));
    let r13 = opt_seq(spec_inf_generalized(a, aPunct, b, bPunct, Copula::INH, Copula::INH, Copula::INH, 1, 1, TvFn::Ind));
    lemma_opt_judgement(spec_inf3(a, aPunct, b, bPunct));
    lemma_opt_judgement(spec_inf4(a, aPunct, b, bPunct));
    lemma_concat_judgements(r0a, r0b);
    lemma_opt_judgement(spec_inf5(a, aPunct, b, bPunct, 0));
    lemma_opt_judgement(spec_inf5(a, aPunct, b, bPunct, 1));
    lemma_opt_judgement(spec_inf5(a, aPunct, b, bPunct, 2));
    lemma_opt_judgement(spec_inf5(a, aPunct, b, bPunct, 3));
    lemma_opt_judgement(spec_inf_impl_ded(a, aPunct, b, bPunct));
    lemma_opt_judgement(spec_inf7(a, aPunct, b, bPunct));
    lemma_opt_judgement(spec_inf_comp(a, aPunct, b, bPunct, true));
    lemma_opt_judgement(spec_inf_comp(a, aPunct, b, bPunct, false));
    lemma_opt_judgement(spec_inf_generalized(a, aPunct, b, bPunct, Copula::PREDIMPL, Copula::PREDIMPL, Copula::PREDIMPL, -1, 1, TvFn::Ded));
    lemma_opt_judgement(spec_inf_generalized(a, aPunct, b, bPunct, Copula::IMPL, Copula::IMPL, Copula::IMPL, -1, 1, TvFn::Ded));
    lemma_opt_judgement(spec_inf_generalized(a, aPunct, b, bPunct, Copula::INH, Copula::INH, Copula::INH, -1, 1, TvFn::Ded));
    lemma_opt_judgement(spec_inf_generalized(a, aPunct, b, bPunct, Copula::INH, Copula::INH, Copula::INH, -1, -1, TvFn::Abd));
    lemma_opt_judgement(spec_inf_generalized(a, aPunct, b, bPunct, Copula::INH, Copula::INH, Copula::INH, 1, 1, TvFn::Ind));
    lemma_concat_judgements(r0, r1);
    lemma_concat_judgements(r0 + r1, r2);
    lemma_concat_judgements(r0 + r1 + r2, r3);
    lemma_concat_judgements(r0 + r1 + r2 + r3, r4);
    lemma_concat_judgements(r0 + r1 + r2 + r3 + r4, r5);
    lemma_concat_judgements(r0 + r1 + r2 + r3 + r4 + r5, r6);
    lemma_concat_judgements(r0 + r1 + r2 + r3 + r4 + r5 + r6, r7);
    lemma_concat_judgements(r0 + r1 + r2 + r3 + r4 + r5 + r6 + r7, r8);
    lemma_concat_judgements(r0 + r1 + r2 + r3 + r4 + r5 + r6 + r7 + r8, r9);
    lemma_concat_judgements(r0 + r1 + r2 + r3 + r4 + r5 + r6 + r7 + r8 + r9, r10);
    lemma_concat_judgements(r0 + r1 + r2 + r3 + r4 + r5 + r6 + r7 + r8 + r9 + r10, r11);
    lemma_concat_judgements(r0 + r1 + r2 + r3 + r4 + r5 + r6 + r7 + r8 + r9 + r10 + r11, r12);
    lemma_concat_judgements(r0 + r1 + r2 + r3 + r4 + r5 + r6 + r7 + r8 + r9 + r10 + r11 + r12, r13);
}

/// Every conclusion of binary inference is a judgement, whatever the
/// punctuation of the premises.
pub proof fn law_binary_judgements(a: TermV, aPunct: EnumPunctation, b: TermV, bPunct: EnumPunctation)
    ensures
        all_judgements(spec_inf_binary(a, aPunct, b, bPunct)),
{
    lemma_inner_judgements(a, aPunct, b, bPunct);
    lemma_inner_judgements(b, bPunct, a, aPunct);
    lemma_concat_judgements(spec_inf_binary_inner(a, aPunct, b, bPunct), spec_inf_binary_inner(b, bPunct, a, aPunct));
}

// ---------------------------------------------------------------------------
// the derivation a worker does for a primary premise

/// the model of a premise: term, punctuation and stamp ids
pub open spec fn premise_view(p: Premise) -> (TermV, EnumPunctation, Seq<i64>) {
    (p.term@, p.punct, p.stamp.ids@)
}

/// models of a list of premises
pub open spec fn premises_view(v: Seq<Premise>) -> Seq<(TermV, EnumPunctation, Seq<i64>)> {
    v.map_values(|p: Premise| premise_view(p))
}

/// the sentences derived from the primary premise with each of the others
/// as second premise, in order
pub open spec fn infer_each(p: (TermV, EnumPunctation, Seq<i64>), l: Seq<(TermV, EnumPunctation, Seq<i64>)>) -> Seq<(TermV, TvFn, EnumPunctation, Seq<i64>)>
    decreases l.len(),
{
    if l.len() == 0 {
        Seq::empty()
    } else {
        infer_each(p, l.drop_last()) + spec_inference(p.0, p.1, p.2, l.last().0, l.last().1, l.last().2)
    }
}

/// everything derived for a primary premise: its single premise
/// conclusions, then its conclusions with each secondary premise, then
/// those with each belief of its concept
pub open spec fn spec_derive_all(
    p: (TermV, EnumPunctation, Seq<i64>),
    secondaries: Seq<(TermV, EnumPunctation, Seq<i64>)>,
    beliefs: Seq<(TermV, EnumPunctation, Seq<i64>)>,
) -> Seq<(TermV, TvFn, EnumPunctation, Seq<i64>)> {
    with_stamp(spec_inf_single_premise(p.0, p.1), p.2) + infer_each(p, secondaries) + infer_each(p, beliefs)
}

/// one more premise: its conclusions follow those of the earlier ones
proof fn lemma_infer_each_step(p: (TermV, EnumPunctation, Seq<i64>), l: Seq<(TermV, EnumPunctation, Seq<i64>)>, i: int)
    requires
        0 <= i < l.len(),
    ensures
        infer_each(p, l.take(i + 1)) == infer_each(p, l.take(i)) + spec_inference(p.0, p.1, p.2, l[i].0, l[i].1, l[i].2),
{
    assert(l.take(i + 1).drop_last() =~= l.take(i));
}

/// appends the conclusions of the primary premise with each of the others
#[verifier::rlimit(40)]
fn infer_with_each(primary: &Premise, others: &Vec<Premise>, res: &mut Vec<Derived>)
    ensures
        deriveds_view(final(res)@) == deriveds_view(old(res)@) + infer_each(premise_view(*primary), premises_view(others@)),
{
    let ghost start = deriveds_view(res@);
    let mut i: usize = 0;
    assert(premises_view(others@).take(0) =~= Seq::<(TermV, EnumPunctation, Seq<i64>)>::empty());
    assert(start + infer_each(premise_view(*primary), premises_view(others@).take(0)) =~= start);
    while i < others.len()
        invariant
            i <= others.len(),
            deriveds_view(res@) == start + infer_each(premise_view(*primary), premises_view(others@).take(i as int)),
        decreases others.len() - i,
    {
        let mut wereRulesApplied = false;
        let mut concl = inference(primary, &others[i], &mut wereRulesApplied);
        let ghost before = res@;
        let ghost c = concl@;
        res.append(&mut concl);
        proof {
            lemma_infer_each_step(premise_view(*primary), premises_view(others@), i as int);
            assert(premises_view(others@)[i as int] == premise_view(others@[i as int]));
            assert(deriveds_view(res@) =~= deriveds_view(before) + deriveds_view(c));
        }
        i += 1;
    }
    assert(premises_view(others@).take(others.len() as int) =~= premises_view(others@));
}

/// the derivation for a primary premise: its single premise conclusions,
/// its conclusions with each secondary premise (the premises that share a
/// subterm with it), and those with each belief of its concept
pub fn derive_for_message(primary: &Premise, secondaries: &Vec<Premise>, beliefs: &Vec<Premise>) -> (res: Vec<Derived>)
    requires
        is_prod_judgement(primary.term@, primary.punct) ==> prod_of(primary.term@).len() >= 2,
    ensures
        deriveds_view(res@) == spec_derive_all(premise_view(*primary), premises_view(secondaries@), premises_view(beliefs@)),
{
    let mut concl = infSinglePremise2(primary);
    infer_with_each(primary, secondaries, &mut concl);
    infer_with_each(primary, beliefs, &mut concl);
    concl
}

/// What is derived for a primary premise begins with every single premise
/// conclusion of it, in order, each with the primary premise's stamp;
/// whatever the secondary premises and beliefs are.
pub proof fn law_derive_single_premise_first(
    p: (TermV, EnumPunctation, Seq<i64>),
    secondaries: Seq<(TermV, EnumPunctation, Seq<i64>)>,
    beliefs: Seq<(TermV, EnumPunctation, Seq<i64>)>,
)
    ensures
        spec_derive_all(p, secondaries, beliefs).len() >= spec_inf_single_premise(p.0, p.1).len(),
        forall|k: int| 0 <= k < spec_inf_single_premise(p.0, p.1).len() ==> #[trigger] spec_derive_all(p, secondaries, beliefs)[k] == (
            spec_inf_single_premise(p.0, p.1)[k].0,
            spec_inf_single_premise(p.0, p.1)[k].1,
            spec_inf_single_premise(p.0, p.1)[k].2,
            p.2,
        ),
{
}

/// For a product judgement `(x * y) --> r`, what is derived for it includes
/// `x --> (r /1 y)` and `y --> (r /2 x)`, each with the premise's stamp,
/// whatever the secondary premises and beliefs are.
pub proof fn law_derive_product_images(
    x: TermV, y: TermV, r: TermV, ids: Seq<i64>,
    secondaries: Seq<(TermV, EnumPunctation, Seq<i64>)>,
    beliefs: Seq<(TermV, EnumPunctation, Seq<i64>)>,
)
    ensures
        spec_derive_all((inh(TermV::List(ListKind::Prod, seq![x, y]), r), EnumPunctation::JUGEMENT, ids), secondaries, beliefs).contains((
            TermV::Stmt(Copula::INH, Box::new(x), Box::new(TermV::Img(Box::new(r), 0, seq![y]))),
            TvFn::First, EnumPunctation::JUGEMENT, ids)),
        spec_derive_all((inh(TermV::List(ListKind::Prod, seq![x, y]), r), EnumPunctation::JUGEMENT, ids), secondaries, beliefs).contains((
            TermV::Stmt(Copula::INH, Box::new(y), Box::new(TermV::Img(Box::new(r), 1, seq![x]))),
            TvFn::First, EnumPunctation::JUGEMENT, ids)),
{
    broadcast use vstd::seq_lib::lemma_seq_concat_contains_all_elements;
    let a = inh(TermV::List(ListKind::Prod, seq![x, y]), r);
    let j = EnumPunctation::JUGEMENT;
    let p = (a, j, ids);
    let c0 = (TermV::Stmt(Copula::INH, Box::new(x), Box::new(TermV::Img(Box::new(r), 0, seq![y]))), TvFn::First, j);
    let c1 = (TermV::Stmt(Copula::INH, Box::new(y), Box::new(TermV::Img(Box::new(r), 1, seq![x]))), TvFn::First, j);
    assert(prod_of(a) == seq![x, y]);
    assert(opt_seq(spec_inf_struct_prod0(a, j))[0] == c0);
    assert(opt_seq(spec_inf_struct_prod1(a, j))[0] == c1);
    assert(opt_seq(spec_inf_struct_prod0(a, j)).contains(c0));
    assert(opt_seq(spec_inf_struct_prod1(a, j)).contains(c1));
    let single = spec_inf_single_premise(a, j);
    assert(single.contains(c0));
    assert(single.contains(c1));
    let k0 = choose|k: int| 0 <= k < single.len() && single[k] == c0;
    let k1 = choose|k: int| 0 <= k < single.len() && single[k] == c1;
    law_derive_single_premise_first(p, secondaries, beliefs);
    assert(spec_derive_all(p, secondaries, beliefs)[k0] == (c0.0, c0.1, c0.2, ids));
    assert(spec_derive_all(p, secondaries, beliefs)[k1] == (c1.0, c1.1, c1.2, ids));
}

// ---------------------------------------------------------------------------
// secondary premises

/// the models of an index from terms to the ids of the tasks filed under them
pub open spec fn index_view(v: Seq<(Term, Vec<i64>)>) -> Seq<(TermV, Seq<i64>)> {
    v.map_values(|e: (Term, Vec<i64>)| (e.0@, e.1@))
}

/// the ids filed under a term: those of its first entry in the index
pub open spec fn ids_of(index: Seq<(TermV, Seq<i64>)>, t: TermV) -> Seq<i64>
    decreases index.len(),
{
    if index.len() == 0 {
        Seq::empty()
    } else if index[0].0 == t {
        index[0].1
    } else {
        ids_of(index.drop_first(), t)
    }
}

/// `acc` with the ids appended that it does not hold yet, in order
pub open spec fn add_new(acc: Seq<i64>, ids: Seq<i64>) -> Seq<i64>
    decreases ids.len(),
{
    if ids.len() == 0 {
        acc
    } else {
        let a = add_new(acc, ids.drop_last());
        if a.contains(ids.last()) { a } else { a.push(ids.last()) }
    }
}

/// the ids filed under each of the terms, in order found, without repeats
pub open spec fn ids_under(index: Seq<(TermV, Seq<i64>)>, terms: Seq<TermV>) -> Seq<i64>
    decreases terms.len(),
{
    if terms.len() == 0 {
        Seq::empty()
    } else {
        add_new(ids_under(index, terms.drop_last()), ids_of(index, terms.last()))
    }
}

/// the tasks eligible as secondary premise: the ids filed under the unique
/// subterms of the primary premise, in order found, without repeats
pub open spec fn spec_secondaries(primary: TermV, index: Seq<(TermV, Seq<i64>)>) -> Seq<i64> {
    ids_under(index, dedup(subterms(primary)))
}

/// the ids filed under a term
fn find_ids(index: &Vec<(Term, Vec<i64>)>, t: &Term) -> (res: Vec<i64>)
    ensures
        res@ == ids_of(index_view(index@), t@),
{
    let mut i: usize = 0;
    assert(index_view(index@).skip(0) =~= index_view(index@));
    while i < index.len()
        invariant
            i <= index.len(),
            ids_of(index_view(index@), t@) == ids_of(index_view(index@).skip(i as int), t@),
        decreases index.len() - i,
    {
        let ghost rest = index_view(index@).skip(i as int);
        assert(rest[0] == (index@[i as int].0@, index@[i as int].1@));
        assert(rest.drop_first() =~= index_view(index@).skip(i + 1));
        if checkEqTerm(&index[i].0, t) {
            let ids = index[i].1.clone();
            assert(ids@ =~= index@[i as int].1@);
            return ids;
        }
        i += 1;
    }
    assert(index_view(index@).skip(i as int).len() == 0);
    Vec::new()
}

/// appends the ids that are new
fn add_new_ids(acc: &mut Vec<i64>, ids: &Vec<i64>)
    ensures
        final(acc)@ == add_new(old(acc)@, ids@),
{
    let ghost a0 = acc@;
    let mut i: usize = 0;
    assert(ids@.take(0) =~= Seq::<i64>::empty());
    while i < ids.len()
        invariant
            i <= ids.len(),
            acc@ == add_new(a0, ids@.take(i as int)),
        decreases ids.len() - i,
    {
        let id = ids[i];
        let mut found = false;
        let mut j: usize = 0;
        while j < acc.len()
            invariant
                j <= acc.len(),
                found == (exists|k: int| 0 <= k < j && acc@[k] == id),
            decreases acc.len() - j,
        {
            if acc[j] == id {
                found = true;
            }
            j += 1;
        }
        proof {
            assert(ids@.take(i + 1).drop_last() =~= ids@.take(i as int));
            assert(ids@.take(i + 1).last() == id);
            if found {
                let k = choose|k: int| 0 <= k < acc@.len() && acc@[k] == id;
                assert(acc@.contains(id));
            }
        }
        if !found {
            acc.push(id);
        }
        i += 1;
    }
    assert(ids@.take(ids.len() as int) =~= ids@);
}

/// the tasks eligible as secondary premise for a primary premise: the ids
/// filed under its unique subterms, in order found, without repeats
pub fn select_secondaries(primary: &Term, index: &Vec<(Term, Vec<i64>)>) -> (res: Vec<i64>)
    ensures
        res@ == spec_secondaries(primary@, index_view(index@)),
{
    let subs = retUniqueSubterms(primary);
    let ghost ts = terms_view(subs@);
    let mut res: Vec<i64> = Vec::new();
    let mut i: usize = 0;
    assert(ts.take(0) =~= Seq::<TermV>::empty());
    while i < subs.len()
        invariant
            ts == terms_view(subs@),
            ts == dedup(subterms(primary@)),
            i <= subs.len(),
            res@ == ids_under(index_view(index@), ts.take(i as int)),
        decreases subs.len() - i,
    {
        let ids = find_ids(index, &subs[i]);
        proof {
            assert(ts.take(i + 1).drop_last() =~= ts.take(i as int));
            assert(ts.take(i + 1).last() == subs@[i as int]@);
        }
        add_new_ids(&mut res, &ids);
        i += 1;
    }
    assert(ts.take(subs.len() as int) =~= ts);
    res
}

/// the position of the first entry of the index filed under `t`
pub open spec fn entry_pos(index: Seq<(TermV, Seq<i64>)>, t: TermV) -> Option<int>
    decreases index.len(),
{
    if index.len() == 0 {
        None
    } else {
        match entry_pos(index.drop_last(), t) {
            Some(k) => Some(k),
            None => if index.last().0 == t { Some(index.len() - 1) } else { None },
        }
    }
}

/// the index with `id` filed under `t`: appended to its entry, or in a new
/// entry at the end
pub open spec fn file_id(index: Seq<(TermV, Seq<i64>)>, t: TermV, id: i64) -> Seq<(TermV, Seq<i64>)> {
    match entry_pos(index, t) {
        Some(k) => index.update(k, (index[k].0, index[k].1.push(id))),
        None => index.push((t, seq![id])),
    }
}

/// the index with `id` filed under each of the terms, in order
pub open spec fn file_all(index: Seq<(TermV, Seq<i64>)>, terms: Seq<TermV>, id: i64) -> Seq<(TermV, Seq<i64>)>
    decreases terms.len(),
{
    if terms.len() == 0 {
        index
    } else {
        file_id(file_all(index, terms.drop_last(), id), terms.last(), id)
    }
}

/// finds the first entry filed under `t`
fn find_entry(index: &Vec<(Term, Vec<i64>)>, t: &Term) -> (res: Option<usize>)
    ensures
        match res {
            Some(k) => entry_pos(index_view(index@), t@) == Some(k as int),
            None => entry_pos(index_view(index@), t@) is None,
        },
        res matches Some(k) ==> k < index.len(),
{
    let ghost iv = index_view(index@);
    let mut i: usize = 0;
    while i < index.len()
        invariant
            iv == index_view(index@),
            i <= index.len(),
            entry_pos(iv.take(i as int), t@) is None,
        decreases index.len() - i,
    {
        proof {
            assert(iv.take(i + 1).drop_last() =~= iv.take(i as int));
            assert(iv.take(i + 1).last() == (index@[i as int].0@, index@[i as int].1@));
        }
        if checkEqTerm(&index[i].0, t) {
            proof {
                lemma_entry_pos_prefix(iv, t@, i + 1);
            }
            return Some(i);
        }
        i += 1;
    }
    assert(iv.take(index.len() as int) =~= iv);
    None
}

/// the first entry found in a prefix is the first entry of the whole
proof fn lemma_entry_pos_prefix(index: Seq<(TermV, Seq<i64>)>, t: TermV, n: int)
    requires
        0 <= n <= index.len(),
        entry_pos(index.take(n), t) is Some,
    ensures
        entry_pos(index, t) == entry_pos(index.take(n), t),
    decreases index.len(),
{
    if n < index.len() {
        assert(index.drop_last().take(n) =~= index.take(n));
        lemma_entry_pos_prefix(index.drop_last(), t, n);
    } else {
        assert(index.take(n) =~= index);
    }
}

/// file the task under each of the subterms of its term, as often as the
/// subterm occurs: its id is appended to the entry of the subterm, or a new
/// entry is made for it
pub fn populateTaskByTermLookup(judgementTasksByTerm: &mut Vec<(Term, Vec<i64>)>, term: &Term, id: i64)
    ensures
        index_view(final(judgementTasksByTerm)@) == file_all(index_view(old(judgementTasksByTerm)@), subterms(term@), id),
{
    let subs = retSubterms(term);
    let ghost ts = terms_view(subs@);
    let ghost i0 = index_view(judgementTasksByTerm@);
    let mut i: usize = 0;
    assert(ts.take(0) =~= Seq::<TermV>::empty());
    while i < subs.len()
        invariant
            ts == terms_view(subs@),
            ts == subterms(term@),
            i <= subs.len(),
            index_view(judgementTasksByTerm@) == file_all(i0, ts.take(i as int), id),
        decreases subs.len() - i,
    {
        proof {
            assert(ts.take(i + 1).drop_last() =~= ts.take(i as int));
            assert(ts.take(i + 1).last() == subs@[i as int]@);
        }
        let ghost before = index_view(judgementTasksByTerm@);
        match find_entry(judgementTasksByTerm, &subs[i]) {
            Some(k) => {
                let mut entry = judgementTasksByTerm[k].1.clone();
                assert(entry@ =~= judgementTasksByTerm@[k as int].1@);
                entry.push(id);
                let key = judgementTasksByTerm[k].0.clone();
                judgementTasksByTerm.set(k, (key, entry));
                assert(index_view(judgementTasksByTerm@) =~= before.update(k as int, (before[k as int].0, before[k as int].1.push(id))));
            },
            None => {
                let key = subs[i].clone();
                let ids = vec![id];
                assert(ids@ =~= seq![id]);
                let ghost e = (key, ids);
                judgementTasksByTerm.push((key, ids));
                assert(index_view(judgementTasksByTerm@) =~= before.push((e.0@, e.1@)));
                assert(index_view(judgementTasksByTerm@) =~= before.push((subs@[i as int]@, seq![id])));
            },
        }
        i += 1;
    }
    assert(ts.take(subs.len() as int) =~= ts);
}

} // verus!

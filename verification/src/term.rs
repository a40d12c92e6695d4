//! Terms of Narsese and their mathematical model.

use vstd::prelude::*;
use crate::text::{decimal, append_decimal};

verus! {


/// copula of a statement
#[derive(PartialEq, Eq, Structural, Hash, Copy, Clone, Debug)]
pub enum Copula {
    /// `<->` similarity
    SIM,
    /// `-->` inheritance
    INH,
    /// `=/>` predictive implication
    PREDIMPL,
    /// `==>` implication
    IMPL,
    /// `<=>` equivalence
    EQUIV,
}

/// a Narsese term
pub enum Term {
    /// statement, ex: `<a --> b>`
    Stmt(Copula, Box<Term>, Box<Term>),
    Name(String),
    /// sequence
    Sequence(Vec<Box<Term>>),
    SetInt(Vec<Box<Term>>),
    SetExt(Vec<Box<Term>>),
    /// `?` variable
    QVar(String),
    /// `#` variable
    DepVar(String),
    /// `$` variable
    IndepVar(String),
    /// `&&`
    Conj(Vec<Box<Term>>),
    /// product
    Prod(Vec<Box<Term>>),
    /// image (rel /idx+1 others)
    Img(Box<Term>, usize, Vec<Box<Term>>),
    /// `|` intensional intersection
    IntInt(Vec<Box<Term>>),
    /// `&` extensional intersection
    ExtInt(Vec<Box<Term>>),
    /// `&|` parallel events
    Par(Vec<Box<Term>>),
    /// negation
    Neg(Box<Term>),
}

/// the kind of a variable
#[derive(PartialEq, Eq, Structural, Copy, Clone)]
pub enum VarKind {
    Query,
    Dep,
    Indep,
}

/// the kind of a compound built from a list of terms
#[derive(PartialEq, Eq, Structural, Copy, Clone)]
pub enum ListKind {
    Sequence,
    SetInt,
    SetExt,
    Conj,
    Prod,
    IntInt,
    ExtInt,
    Par,
}

/// mathematical model of a term
pub enum TermV {
    Stmt(Copula, Box<TermV>, Box<TermV>),
    Name(Seq<char>),
    Var(VarKind, Seq<char>),
    List(ListKind, Seq<TermV>),
    Img(Box<TermV>, usize, Seq<TermV>),
    Neg(Box<TermV>),
}

impl Term {
    /// model of a list of boxed terms
    pub open spec fn view_list(v: Seq<Box<Term>>) -> Seq<TermV>
        decreases v,
    {
        if v.len() == 0 {
            Seq::empty()
        } else {
            Self::view_list(v.subrange(0, v.len() - 1)).push(v[v.len() - 1].view_term())
        }
    }

    /// model of a term
    pub open spec fn view_term(&self) -> TermV
        decreases *self,
    {
        match self {
            Term::Stmt(c, s, p) => TermV::Stmt(*c, Box::new(s.view_term()), Box::new(p.view_term())),
            Term::Name(n) => TermV::Name(n@),
            Term::Sequence(v) => TermV::List(ListKind::Sequence, Self::view_list(v@)),
            Term::SetInt(v) => TermV::List(ListKind::SetInt, Self::view_list(v@)),
            Term::SetExt(v) => TermV::List(ListKind::SetExt, Self::view_list(v@)),
            Term::QVar(n) => TermV::Var(VarKind::Query, n@),
            Term::DepVar(n) => TermV::Var(VarKind::Dep, n@),
            Term::IndepVar(n) => TermV::Var(VarKind::Indep, n@),
            Term::Conj(v) => TermV::List(ListKind::Conj, Self::view_list(v@)),
            Term::Prod(v) => TermV::List(ListKind::Prod, Self::view_list(v@)),
            Term::Img(r, i, v) => TermV::Img(Box::new(r.view_term()), *i, Self::view_list(v@)),
            Term::IntInt(v) => TermV::List(ListKind::IntInt, Self::view_list(v@)),
            Term::ExtInt(v) => TermV::List(ListKind::ExtInt, Self::view_list(v@)),
            Term::Par(v) => TermV::List(ListKind::Par, Self::view_list(v@)),
            Term::Neg(t) => TermV::Neg(Box::new(t.view_term())),
        }
    }
}

impl View for Term {
    type V = TermV;

    open spec fn view(&self) -> TermV {
        self.view_term()
    }
}

/// the model of a list of boxed terms has one model per element
pub broadcast proof fn lemma_view_list(v: Seq<Box<Term>>)
    ensures
        #[trigger] Term::view_list(v).len() == v.len(),
        forall|i: int| 0 <= i < v.len() ==> Term::view_list(v)[i] == v[i].view_term(),
    decreases v.len(),
{
    if v.len() > 0 {
        lemma_view_list(v.subrange(0, v.len() - 1));
    }
}

/// models of a list of (unboxed) terms
pub open spec fn terms_view(v: Seq<Term>) -> Seq<TermV> {
    v.map_values(|t: Term| t@)
}

/// two lists of boxed terms with the same element models have the same model
pub proof fn lemma_view_list_ext(a: Seq<Box<Term>>, b: Seq<TermV>)
    requires
        a.len() == b.len(),
        forall|i: int| 0 <= i < a.len() ==> a[i].view_term() == b[i],
    ensures
        Term::view_list(a) == b,
{
    lemma_view_list(a);
    assert(Term::view_list(a) =~= b);
}

// ---------------------------------------------------------------------------
// specifications over the model

/// complexity of a term: atoms count one, statements and negations add one
pub open spec fn complexity(t: TermV) -> nat
    decreases t,
{
    match t {
        TermV::Stmt(_, s, p) => 1 + complexity(*s) + complexity(*p),
        TermV::Name(_) => 1,
        TermV::Var(_, _) => 1,
        TermV::List(_, l) => complexity_list(l),
        TermV::Img(r, _, l) => complexity_list(l) + complexity(*r),
        TermV::Neg(x) => 1 + complexity(*x),
    }
}

/// sum of the complexities of a list of terms
pub open spec fn complexity_list(l: Seq<TermV>) -> nat
    decreases l,
{
    if l.len() == 0 {
        0
    } else {
        complexity_list(l.subrange(0, l.len() - 1)) + complexity(l[l.len() - 1])
    }
}

/// all subterms in pre-order: the term itself, then the subterms of its parts
/// (for an image the elements come before the relation)
pub open spec fn subterms(t: TermV) -> Seq<TermV>
    decreases t,
{
    seq![t] + match t {
        TermV::Stmt(_, s, p) => subterms(*s) + subterms(*p),
        TermV::List(_, l) => subterms_list(l),
        TermV::Img(r, _, l) => subterms_list(l) + subterms(*r),
        TermV::Neg(x) => subterms(*x),
        _ => Seq::<TermV>::empty(),
    }
}

/// concatenation of the subterms of each element of a list
pub open spec fn subterms_list(l: Seq<TermV>) -> Seq<TermV>
    decreases l,
{
    if l.len() == 0 {
        Seq::empty()
    } else {
        subterms_list(l.subrange(0, l.len() - 1)) + subterms(l[l.len() - 1])
    }
}

/// the sequence without repeated elements, keeping the first occurrence of each
pub open spec fn dedup(s: Seq<TermV>) -> Seq<TermV>
    decreases s.len(),
{
    if s.len() == 0 {
        Seq::empty()
    } else {
        let d = dedup(s.drop_last());
        if d.contains(s.last()) {
            d
        } else {
            d.push(s.last())
        }
    }
}

/// text of a copula
pub open spec fn copula_str(c: Copula) -> Seq<char> {
    match c {
        Copula::SIM => "<->"@,
        Copula::INH => "-->"@,
        Copula::PREDIMPL => "=/>"@,
        Copula::IMPL => "==>"@,
        Copula::EQUIV => "<=>"@,
    }
}

/// prefix of a variable
pub open spec fn var_prefix(k: VarKind) -> Seq<char> {
    match k {
        VarKind::Query => "?"@,
        VarKind::Dep => "#"@,
        VarKind::Indep => "$"@,
    }
}

/// opening bracket of a list compound
pub open spec fn list_open(k: ListKind) -> Seq<char> {
    match k {
        ListKind::SetInt => "["@,
        ListKind::SetExt => "{"@,
        _ => "( "@,
    }
}

/// closing bracket of a list compound
pub open spec fn list_close(k: ListKind) -> Seq<char> {
    match k {
        ListKind::SetInt => "]"@,
        ListKind::SetExt => "}"@,
        _ => " )"@,
    }
}

/// separator between the elements of a list compound
pub open spec fn list_sep(k: ListKind) -> Seq<char> {
    match k {
        ListKind::Sequence => " , "@,
        ListKind::SetInt => " "@,
        ListKind::SetExt => " "@,
        ListKind::Conj => " && "@,
        ListKind::Prod => " * "@,
        ListKind::IntInt => " | "@,
        ListKind::ExtInt => " & "@,
        ListKind::Par => " ; "@,
    }
}

/// Narsese text of a term
pub open spec fn term_str(t: TermV) -> Seq<char>
    decreases t,
{
    match t {
        TermV::Stmt(c, s, p) => "<"@ + term_str(*s) + " "@ + copula_str(c) + " "@ + term_str(*p) + ">"@,
        TermV::Name(n) => n,
        TermV::Var(k, n) => var_prefix(k) + n,
        TermV::List(k, l) => list_open(k) + join(l, list_sep(k)) + list_close(k),
        TermV::Img(r, i, l) => "( "@ + term_str(*r) + " /"@ + decimal(i as nat + 1) + " "@ + join(l, " "@) + " )"@,
        TermV::Neg(x) => "(! "@ + term_str(*x) + " )"@,
    }
}

/// texts of the terms of a list, separated by `sep`
pub open spec fn join(l: Seq<TermV>, sep: Seq<char>) -> Seq<char>
    decreases l,
{
    if l.len() == 0 {
        Seq::empty()
    } else if l.len() == 1 {
        term_str(l[0])
    } else {
        join(l.subrange(0, l.len() - 1), sep) + sep + term_str(l[l.len() - 1])
    }
}

/// a term that can be written as text: no compound has an empty list,
/// and no image index is the largest `usize`
pub open spec fn printable(t: TermV) -> bool
    decreases t,
{
    match t {
        TermV::Stmt(_, s, p) => printable(*s) && printable(*p),
        TermV::Name(_) => true,
        TermV::Var(_, _) => true,
        TermV::List(_, l) => l.len() > 0 && printable_list(l),
        TermV::Img(r, i, l) => i < usize::MAX && l.len() > 0 && printable(*r) && printable_list(l),
        TermV::Neg(x) => printable(*x),
    }
}

/// every term of the list is printable
pub open spec fn printable_list(l: Seq<TermV>) -> bool
    decreases l,
{
    if l.len() == 0 {
        true
    } else {
        printable_list(l.subrange(0, l.len() - 1)) && printable(l[l.len() - 1])
    }
}

// ---------------------------------------------------------------------------
// executable functions

/// copies a list of boxed terms
fn clone_list(v: &Vec<Box<Term>>) -> (res: Vec<Box<Term>>)
    ensures
        Term::view_list(res@) == Term::view_list(v@),
    decreases v@,
{
    let mut arr: Vec<Box<Term>> = Vec::new();
    let mut i: usize = 0;
    while i < v.len()
        invariant
            i <= v.len(),
            arr@.len() == i,
            forall|j: int| 0 <= j < i ==> arr@[j].view_term() == v@[j].view_term(),
        decreases v.len() - i,
    {
        let c = (*v[i]).clone();
        arr.push(Box::new(c));
        i += 1;
    }
    proof {
        lemma_view_list(v@);
        lemma_view_list_ext(arr@, Term::view_list(v@));
    }
    arr
}

impl Clone for Term {
    fn clone(&self) -> (res: Self)
        ensures
            res@ == self@,
        decreases self,
    {
        match self {
            Term::Stmt(copula, subj, pred) => {
                Term::Stmt(*copula, Box::new((**subj).clone()), Box::new((**pred).clone()))
            },
            Term::Name(name) => Term::Name(name.clone()),
            Term::Sequence(v) => Term::Sequence(clone_list(v)),
            Term::SetInt(v) => Term::SetInt(clone_list(v)),
            Term::SetExt(v) => Term::SetExt(clone_list(v)),
            Term::QVar(name) => Term::QVar(name.clone()),
            Term::DepVar(name) => Term::DepVar(name.clone()),
            Term::IndepVar(name) => Term::IndepVar(name.clone()),
            Term::Conj(v) => Term::Conj(clone_list(v)),
            Term::Prod(v) => Term::Prod(clone_list(v)),
            Term::Img(rel, idx, v) => Term::Img(Box::new((**rel).clone()), *idx, clone_list(v)),
            Term::IntInt(v) => Term::IntInt(clone_list(v)),
            Term::ExtInt(v) => Term::ExtInt(clone_list(v)),
            Term::Par(v) => Term::Par(clone_list(v)),
            Term::Neg(t) => Term::Neg(Box::new((**t).clone())),
        }
    }
}

/// are two lists of boxed terms element-wise equal?
fn eq_list(a: &Vec<Box<Term>>, b: &Vec<Box<Term>>) -> (r: bool)
    ensures
        r == (Term::view_list(a@) == Term::view_list(b@)),
    decreases a@,
{
    proof {
        lemma_view_list(a@);
        lemma_view_list(b@);
    }
    if a.len() != b.len() {
        return false;
    }
    let mut idx: usize = 0;
    while idx < a.len()
        invariant
            idx <= a.len(),
            a.len() == b.len(),
            Term::view_list(a@).len() == a.len(),
            Term::view_list(b@).len() == b.len(),
            forall|j: int| 0 <= j < a.len() ==> Term::view_list(a@)[j] == a@[j].view_term(),
            forall|j: int| 0 <= j < b.len() ==> Term::view_list(b@)[j] == b@[j].view_term(),
            forall|j: int| 0 <= j < idx ==> a@[j].view_term() == b@[j].view_term(),
        decreases a.len() - idx,
    {
        if !checkEqTerm(&a[idx], &b[idx]) {
            assert(Term::view_list(a@)[idx as int] != Term::view_list(b@)[idx as int]);
            return false;
        }
        idx += 1;
    }
    assert(Term::view_list(a@) =~= Term::view_list(b@));
    true
}

/// structural equality of two terms
pub fn checkEqTerm(a: &Term, b: &Term) -> (r: bool)
    ensures
        r == (a@ == b@),
    decreases a,
{
    match a {
        Term::Stmt(copulaa, subja, preda) => {
            match b {
                Term::Stmt(copulab, subjb, predb) => *copulaa == *copulab && checkEqTerm(subja, subjb) && checkEqTerm(preda, predb),
                _ => false,
            }
        },
        Term::Name(namea) => {
            match b {
                Term::Name(nameb) => *namea == *nameb,
                _ => false,
            }
        },
        Term::Sequence(seqa) => {
            match b {
                Term::Sequence(seqb) => eq_list(seqa, seqb),
                _ => false,
            }
        },
        Term::SetInt(seta) => {
            match b {
                Term::SetInt(setb) => eq_list(seta, setb),
                _ => false,
            }
        },
        Term::SetExt(seta) => {
            match b {
                Term::SetExt(setb) => eq_list(seta, setb),
                _ => false,
            }
        },
        Term::QVar(namea) => {
            match b {
                Term::QVar(nameb) => *namea == *nameb,
                _ => false,
            }
        },
        Term::DepVar(namea) => {
            match b {
                Term::DepVar(nameb) => *namea == *nameb,
                _ => false,
            }
        },
        Term::IndepVar(namea) => {
            match b {
                Term::IndepVar(nameb) => *namea == *nameb,
                _ => false,
            }
        },
        Term::Conj(elementsa) => {
            match b {
                Term::Conj(elementsb) => eq_list(elementsa, elementsb),
                _ => false,
            }
        },
        Term::Prod(elementsa) => {
            match b {
                Term::Prod(elementsb) => eq_list(elementsa, elementsb),
                _ => false,
            }
        },
        Term::Img(rela, idxa, elementsa) => {
            match b {
                Term::Img(relb, idxb, elementsb) if *idxa == *idxb => {
                    if !checkEqTerm(rela, relb) {
                        return false;
                    }
                    eq_list(elementsa, elementsb)
                },
                _ => false,
            }
        },
        Term::IntInt(seta) => {
            match b {
                Term::IntInt(setb) => eq_list(seta, setb),
                _ => false,
            }
        },
        Term::ExtInt(seta) => {
            match b {
                Term::ExtInt(setb) => eq_list(seta, setb),
                _ => false,
            }
        },
        Term::Par(elementsa) => {
            match b {
                Term::Par(elementsb) => eq_list(elementsa, elementsb),
                _ => false,
            }
        },
        Term::Neg(terma) => {
            match b {
                Term::Neg(termb) => checkEqTerm(terma, termb),
                _ => false,
            }
        },
    }
}

/// the complexity of a prefix of a list is at most that of the list
pub proof fn lemma_complexity_prefix(l: Seq<TermV>, n: int)
    requires
        0 <= n <= l.len(),
    ensures
        complexity_list(l.subrange(0, n)) <= complexity_list(l),
    decreases l.len(),
{
    if n == l.len() {
        assert(l.subrange(0, n) =~= l);
    } else {
        let l2 = l.subrange(0, l.len() - 1);
        lemma_complexity_prefix(l2, n);
        assert(l2.subrange(0, n) =~= l.subrange(0, n));
    }
}

/// a prefix one longer adds the complexity of the next element
pub proof fn lemma_complexity_step(l: Seq<TermV>, i: int)
    requires
        0 <= i < l.len(),
    ensures
        complexity_list(l.subrange(0, i + 1)) == complexity_list(l.subrange(0, i)) + complexity(l[i]),
{
    assert(l.subrange(0, i + 1).subrange(0, i) =~= l.subrange(0, i));
}

fn complexity_of_list(v: &Vec<Box<Term>>) -> (c: u64)
    requires
        complexity_list(Term::view_list(v@)) <= u64::MAX,
    ensures
        c == complexity_list(Term::view_list(v@)),
    decreases v@,
{
    let ghost l = Term::view_list(v@);
    proof {
        lemma_view_list(v@);
        assert(l.subrange(0, 0) =~= Seq::<TermV>::empty());
    }
    let mut c: u64 = 0;
    let mut i: usize = 0;
    while i < v.len()
        invariant
            i <= v.len(),
            l == Term::view_list(v@),
            l.len() == v.len(),
            forall|j: int| 0 <= j < v.len() ==> l[j] == v@[j].view_term(),
            complexity_list(l) <= u64::MAX,
            c == complexity_list(l.subrange(0, i as int)),
        decreases v.len() - i,
    {
        proof {
            lemma_complexity_step(l, i as int);
            lemma_complexity_prefix(l, i + 1);
        }
        let ci = calcComplexity(&v[i]);
        c = c + ci;
        i += 1;
    }
    proof {
        assert(l.subrange(0, v.len() as int) =~= l);
    }
    c
}

/// complexity of a term
pub fn calcComplexity(t: &Term) -> (c: u64)
    requires
        complexity(t@) <= u64::MAX,
    ensures
        c == complexity(t@),
    decreases t,
{
    match t {
        Term::Stmt(_, subj, pred) => 1 + calcComplexity(subj) + calcComplexity(pred),
        Term::Name(_) => 1,
        Term::Sequence(v) => complexity_of_list(v),
        Term::SetInt(v) => complexity_of_list(v),
        Term::SetExt(v) => complexity_of_list(v),
        Term::QVar(_) => 1,
        Term::DepVar(_) => 1,
        Term::IndepVar(_) => 1,
        Term::Conj(v) => complexity_of_list(v),
        Term::Prod(v) => complexity_of_list(v),
        Term::Img(rel, _idx, v) => {
            let c = complexity_of_list(v);
            c + calcComplexity(rel)
        },
        Term::IntInt(v) => complexity_of_list(v),
        Term::ExtInt(v) => complexity_of_list(v),
        Term::Par(v) => complexity_of_list(v),
        Term::Neg(term) => 1 + calcComplexity(term),
    }
}

/// a prefix one longer adds the subterms of the next element
pub proof fn lemma_subterms_step(l: Seq<TermV>, i: int)
    requires
        0 <= i < l.len(),
    ensures
        subterms_list(l.subrange(0, i + 1)) == subterms_list(l.subrange(0, i)) + subterms(l[i]),
{
    assert(l.subrange(0, i + 1).subrange(0, i) =~= l.subrange(0, i));
}

proof fn lemma_terms_view_push(v: Seq<Term>, t: Term)
    ensures
        terms_view(v.push(t)) == terms_view(v).push(t@),
{
    assert(terms_view(v.push(t)) =~= terms_view(v).push(t@));
}

fn subterms_of_list(v: &Vec<Box<Term>>, res: &mut Vec<Term>)
    ensures
        terms_view(final(res)@) == terms_view(old(res)@) + subterms_list(Term::view_list(v@)),
    decreases v@,
{
    let ghost l = Term::view_list(v@);
    let ghost start = terms_view(res@);
    proof {
        lemma_view_list(v@);
        assert(l.subrange(0, 0) =~= Seq::<TermV>::empty());
        assert(start + Seq::<TermV>::empty() =~= start);
    }
    let mut i: usize = 0;
    while i < v.len()
        invariant
            i <= v.len(),
            l == Term::view_list(v@),
            l.len() == v.len(),
            forall|j: int| 0 <= j < v.len() ==> l[j] == v@[j].view_term(),
            terms_view(res@) == start + subterms_list(l.subrange(0, i as int)),
        decreases v.len() - i,
    {
        proof {
            lemma_subterms_step(l, i as int);
        }
        let ghost before = terms_view(res@);
        retSubterms2(&v[i], res);
        assert(terms_view(res@) =~= start + subterms_list(l.subrange(0, i + 1)));
        i += 1;
    }
    proof {
        assert(l.subrange(0, v.len() as int) =~= l);
    }
}

/// appends all subterms of `t` in pre-order
fn retSubterms2(t: &Term, res: &mut Vec<Term>)
    ensures
        terms_view(final(res)@) == terms_view(old(res)@) + subterms(t@),
    decreases t,
{
    let ghost start = terms_view(res@);
    let ghost prev = res@;
    let c = t.clone();
    res.push(c);
    proof {
        lemma_terms_view_push(prev, c);
    }
    let ghost mid = terms_view(res@);
    assert(mid == start.push(t@));
    match t {
        Term::Stmt(_, subj, pred) => {
            retSubterms2(subj, res);
            retSubterms2(pred, res);
        },
        Term::Sequence(v) => subterms_of_list(v, res),
        Term::SetInt(v) => subterms_of_list(v, res),
        Term::SetExt(v) => subterms_of_list(v, res),
        Term::Conj(v) => subterms_of_list(v, res),
        Term::Prod(v) => subterms_of_list(v, res),
        Term::Img(rel, _idx, v) => {
            subterms_of_list(v, res);
            retSubterms2(rel, res);
        },
        Term::IntInt(v) => subterms_of_list(v, res),
        Term::ExtInt(v) => subterms_of_list(v, res),
        Term::Par(v) => subterms_of_list(v, res),
        Term::Neg(term) => retSubterms2(term, res),
        _ => {},
    }
    assert(terms_view(res@) =~= start + subterms(t@));
}

/// all subterms of a term in pre-order, the term itself first
pub fn retSubterms(t: &Term) -> (res: Vec<Term>)
    ensures
        terms_view(res@) == subterms(t@),
{
    let mut res: Vec<Term> = Vec::new();
    proof {
        assert(terms_view(res@) =~= Seq::<TermV>::empty());
    }
    retSubterms2(t, &mut res);
    assert(terms_view(res@) =~= subterms(t@));
    res
}

/// the subterms of a term, each once, in order of first occurrence
pub fn retUniqueSubterms(t: &Term) -> (res: Vec<Term>)
    ensures
        terms_view(res@) == dedup(subterms(t@)),
{
    let subs = retSubterms(t);
    let ghost s = terms_view(subs@);
    let mut res: Vec<Term> = Vec::new();
    proof {
        assert(s.take(0) =~= Seq::<TermV>::empty());
        assert(terms_view(res@) =~= Seq::<TermV>::empty());
    }
    let mut i: usize = 0;
    while i < subs.len()
        invariant
            i <= subs.len(),
            s == terms_view(subs@),
            terms_view(res@) == dedup(s.take(i as int)),
        decreases subs.len() - i,
    {
        let mut inRes = false;
        let mut j: usize = 0;
        while j < res.len() && !inRes
            invariant
                i < subs.len(),
                j <= res.len(),
                !inRes ==> forall|k: int| 0 <= k < j ==> res@[k]@ != subs@[i as int]@,
                inRes ==> exists|k: int| 0 <= k < res.len() && res@[k]@ == subs@[i as int]@,
            decreases res.len() - j,
        {
            if checkEqTerm(&subs[i], &res[j]) {
                inRes = true;
            }
            j += 1;
        }
        let ghost d = terms_view(res@);
        assert(s.take(i + 1).drop_last() =~= s.take(i as int));
        assert(inRes == d.contains(s[i as int])) by {
            if d.contains(s[i as int]) {
                let k = choose|k: int| 0 <= k < d.len() && d[k] == s[i as int];
                assert(res@[k]@ == subs@[i as int]@);
            }
            if inRes {
                let k = choose|k: int| 0 <= k < res.len() && res@[k]@ == subs@[i as int]@;
                assert(d[k] == s[i as int]);
            }
        }
        if !inRes {
            let c = subs[i].clone();
            let ghost prev = res@;
            res.push(c);
            proof {
                lemma_terms_view_push(prev, c);
            }
        }
        i += 1;
    }
    assert(s.take(subs.len() as int) =~= s);
    res
}

/// a list is printable exactly when each of its terms is
pub proof fn lemma_printable_list(l: Seq<TermV>)
    ensures
        printable_list(l) <==> forall|i: int| 0 <= i < l.len() ==> printable(#[trigger] l[i]),
    decreases l.len(),
{
    if l.len() > 0 {
        let l2 = l.subrange(0, l.len() - 1);
        lemma_printable_list(l2);
        if printable_list(l) {
            assert forall|i: int| 0 <= i < l.len() implies printable(#[trigger] l[i]) by {
                if i < l.len() - 1 {
                    assert(l2[i] == l[i]);
                }
            }
        }
        if forall|i: int| 0 <= i < l.len() ==> printable(#[trigger] l[i]) {
            assert forall|i: int| 0 <= i < l2.len() implies printable(#[trigger] l2[i]) by {
                assert(l2[i] == l[i]);
            }
        }
    }
}

/// a prefix one longer appends the separator and the text of the next element
pub proof fn lemma_join_step(l: Seq<TermV>, sep: Seq<char>, i: int)
    requires
        1 <= i < l.len(),
    ensures
        join(l.subrange(0, i + 1), sep) == join(l.subrange(0, i), sep) + sep + term_str(l[i]),
{
    assert(l.subrange(0, i + 1).subrange(0, i) =~= l.subrange(0, i));
}

fn str_of_list(v: &Vec<Box<Term>>, sep: &str, res: &mut String)
    requires
        Term::view_list(v@).len() > 0,
        printable_list(Term::view_list(v@)),
    ensures
        final(res)@ == old(res)@ + join(Term::view_list(v@), sep@),
    decreases v@,
{
    let ghost l = Term::view_list(v@);
    let ghost start = res@;
    proof {
        lemma_view_list(v@);
        lemma_printable_list(l);
        assert(printable(l[0]));
    }
    str_of_term(&v[0], res);
    proof {
        assert(l.subrange(0, 1).len() == 1);
        assert(join(l.subrange(0, 1), sep@) == term_str(l[0]));
    }
    let mut i: usize = 1;
    while i < v.len()
        invariant
            1 <= i <= v.len(),
            l == Term::view_list(v@),
            l.len() == v.len(),
            forall|j: int| 0 <= j < v.len() ==> l[j] == v@[j].view_term(),
            forall|j: int| 0 <= j < l.len() ==> printable(#[trigger] l[j]),
            res@ == start + join(l.subrange(0, i as int), sep@),
        decreases v.len() - i,
    {
        proof {
            lemma_join_step(l, sep@, i as int);
        }
        res.append(sep);
        str_of_term(&v[i], res);
        assert(res@ =~= start + join(l.subrange(0, i + 1), sep@));
        i += 1;
    }
    proof {
        assert(l.subrange(0, v.len() as int) =~= l);
    }
}

fn str_of_term(t: &Term, res: &mut String)
    requires
        printable(t@),
    ensures
        final(res)@ == old(res)@ + term_str(t@),
    decreases t,
{
    let ghost start = res@;
    match t {
        Term::Stmt(copula, subj, pred) => {
            res.append("<");
            str_of_term(subj, res);
            res.append(" ");
            match copula {
                Copula::SIM => res.append("<->"),
                Copula::INH => res.append("-->"),
                Copula::PREDIMPL => res.append("=/>"),
                Copula::IMPL => res.append("==>"),
                Copula::EQUIV => res.append("<=>"),
            }
            res.append(" ");
            str_of_term(pred, res);
            res.append(">");
        },
        Term::Name(name) => res.append(name.as_str()),
        Term::Sequence(v) => {
            res.append("( ");
            str_of_list(v, " , ", res);
            res.append(" )");
        },
        Term::SetInt(v) => {
            res.append("[");
            str_of_list(v, " ", res);
            res.append("]");
        },
        Term::SetExt(v) => {
            res.append("{");
            str_of_list(v, " ", res);
            res.append("}");
        },
        Term::QVar(name) => {
            res.append("?");
            res.append(name.as_str());
        },
        Term::DepVar(name) => {
            res.append("#");
            res.append(name.as_str());
        },
        Term::IndepVar(name) => {
            res.append("$");
            res.append(name.as_str());
        },
        Term::Conj(v) => {
            res.append("( ");
            str_of_list(v, " && ", res);
            res.append(" )");
        },
        Term::Prod(v) => {
            res.append("( ");
            str_of_list(v, " * ", res);
            res.append(" )");
        },
        Term::Img(rel, idx, v) => {
            res.append("( ");
            str_of_term(rel, res);
            res.append(" /");
            append_decimal((*idx + 1) as u64, res);
            res.append(" ");
            str_of_list(v, " ", res);
            res.append(" )");
        },
        Term::IntInt(v) => {
            res.append("( ");
            str_of_list(v, " | ", res);
            res.append(" )");
        },
        Term::ExtInt(v) => {
            res.append("( ");
            str_of_list(v, " & ", res);
            res.append(" )");
        },
        Term::Par(v) => {
            res.append("( ");
            str_of_list(v, " ; ", res);
            res.append(" )");
        },
        Term::Neg(term) => {
            res.append("(! ");
            str_of_term(term, res);
            res.append(" )");
        },
    }
    assert(res@ =~= start + term_str(t@));
}

/// Narsese text of a term
pub fn convTermToStr(t: &Term) -> (res: String)
    requires
        printable(t@),
    ensures
        res@ == term_str(t@),
{
    let mut res = String::new();
    str_of_term(t, &mut res);
    assert(res@ =~= term_str(t@));
    res
}

/// boxed copies of a list of terms
pub(crate) fn box_all(ts: &Vec<Term>) -> (res: Vec<Box<Term>>)
    ensures
        Term::view_list(res@) == terms_view(ts@),
{
    let mut arr: Vec<Box<Term>> = Vec::new();
    let mut i: usize = 0;
    while i < ts.len()
        invariant
            i <= ts.len(),
            arr@.len() == i,
            forall|j: int| 0 <= j < i ==> arr@[j].view_term() == ts@[j]@,
        decreases ts.len() - i,
    {
        let c = ts[i].clone();
        arr.push(Box::new(c));
        i += 1;
    }
    proof {
        lemma_view_list_ext(arr@, terms_view(ts@));
    }
    arr
}

/// unboxed copies of a list of boxed terms
pub(crate) fn unbox_all(v: &Vec<Box<Term>>) -> (res: Vec<Term>)
    ensures
        terms_view(res@) == Term::view_list(v@),
{
    proof {
        lemma_view_list(v@);
    }
    let mut arr: Vec<Term> = Vec::new();
    let mut i: usize = 0;
    while i < v.len()
        invariant
            i <= v.len(),
            arr@.len() == i,
            Term::view_list(v@).len() == v.len(),
            forall|j: int| 0 <= j < v.len() ==> Term::view_list(v@)[j] == v@[j].view_term(),
            forall|j: int| 0 <= j < i ==> arr@[j]@ == v@[j].view_term(),
        decreases v.len() - i,
    {
        let c = (*v[i]).clone();
        arr.push(c);
        i += 1;
    }
    assert(terms_view(arr@) =~= Term::view_list(v@));
    arr
}

/// the compound of the given kind with the given elements
pub(crate) fn make_list(k: ListKind, arr: Vec<Box<Term>>) -> (t: Term)
    ensures
        t@ == TermV::List(k, Term::view_list(arr@)),
{
    match k {
        ListKind::Sequence => Term::Sequence(arr),
        ListKind::SetInt => Term::SetInt(arr),
        ListKind::SetExt => Term::SetExt(arr),
        ListKind::Conj => Term::Conj(arr),
        ListKind::Prod => Term::Prod(arr),
        ListKind::IntInt => Term::IntInt(arr),
        ListKind::ExtInt => Term::ExtInt(arr),
        ListKind::Par => Term::Par(arr),
    }
}

/// copies of the terms of two lists, one after the other
pub(crate) fn concat_lists(a: &Vec<Box<Term>>, b: &Vec<Box<Term>>) -> (res: Vec<Box<Term>>)
    ensures
        Term::view_list(res@) == Term::view_list(a@) + Term::view_list(b@),
{
    let mut res = clone_list(a);
    let mut more = clone_list(b);
    proof {
        lemma_view_list(res@);
        lemma_view_list(more@);
        lemma_view_list(a@);
        lemma_view_list(b@);
    }
    let ghost r0 = res@;
    let ghost m0 = more@;
    res.append(&mut more);
    proof {
        lemma_view_list(res@);
        assert(res@ == r0 + m0);
        assert forall|i: int| 0 <= i < res@.len() implies res@[i].view_term() == (Term::view_list(a@) + Term::view_list(b@))[i] by {
            if i < r0.len() {
                assert(res@[i] == r0[i]);
            } else {
                assert(res@[i] == m0[i - r0.len()]);
            }
        }
        lemma_view_list_ext(res@, Term::view_list(a@) + Term::view_list(b@));
    }
    res
}

/// `dedup` keeps each element once and no other
proof fn lemma_dedup(s: Seq<TermV>)
    ensures
        dedup(s).no_duplicates(),
        forall|x: TermV| dedup(s).contains(x) <==> s.contains(x),
    decreases s.len(),
{
    if s.len() > 0 {
        let d = dedup(s.drop_last());
        lemma_dedup(s.drop_last());
        assert forall|x: TermV| s.contains(x) <==> (s.drop_last().contains(x) || x == s.last()) by {
            if s.contains(x) {
                let i = choose|i: int| 0 <= i < s.len() && s[i] == x;
                if i < s.len() - 1 {
                    assert(s.drop_last()[i] == x);
                }
            }
            if s.drop_last().contains(x) {
                let i = choose|i: int| 0 <= i < s.drop_last().len() && s.drop_last()[i] == x;
                assert(s[i] == x);
            }
            if x == s.last() {
                assert(s[s.len() - 1] == x);
            }
        }
        if !d.contains(s.last()) {
            let e = d.push(s.last());
            assert forall|x: TermV| e.contains(x) <==> (d.contains(x) || x == s.last()) by {
                if e.contains(x) {
                    let i = choose|i: int| 0 <= i < e.len() && e[i] == x;
                    if i < d.len() {
                        assert(d[i] == x);
                    }
                }
                if d.contains(x) {
                    let i = choose|i: int| 0 <= i < d.len() && d[i] == x;
                    assert(e[i] == x);
                }
                if x == s.last() {
                    assert(e[d.len() as int] == x);
                }
            }
            assert forall|i: int, j: int| 0 <= i < e.len() && 0 <= j < e.len() && i != j implies e[i] != e[j] by {
                if i < d.len() && j < d.len() {
                } else if i < d.len() {
                    assert(d.contains(e[i]));
                } else {
                    assert(d.contains(e[j]));
                }
            }
        }
    }
}

/// The unique subterms of a term hold each of its subterms exactly once,
/// and nothing else; the term itself comes first.
pub proof fn law_unique_subterms(t: TermV)
    ensures
        dedup(subterms(t)).no_duplicates(),
        forall|x: TermV| dedup(subterms(t)).contains(x) <==> subterms(t).contains(x),
        dedup(subterms(t)).len() >= 1,
        dedup(subterms(t))[0] == t,
{
    lemma_dedup(subterms(t));
    assert(subterms(t)[0] == t);
    assert(subterms(t).contains(t));
    lemma_dedup_first(subterms(t));
}

/// the first element of a sequence is the first element left by `dedup`
proof fn lemma_dedup_first(s: Seq<TermV>)
    requires
        s.len() >= 1,
    ensures
        dedup(s).len() >= 1,
        dedup(s)[0] == s[0],
    decreases s.len(),
{
    if s.len() == 1 {
        assert(s.drop_last() =~= Seq::<TermV>::empty());
        assert(dedup(s.drop_last()) =~= Seq::<TermV>::empty());
    } else {
        lemma_dedup_first(s.drop_last());
        assert(s.drop_last()[0] == s[0]);
    }
}

} // verus!

//! The language module: the relations by which the words of a sentence
//! are given to the reasoner that reads them.

use vstd::prelude::*;
use crate::term::{Term, TermV, Copula, ListKind, terms_view, lemma_view_list_ext};
use crate::term_api::{s, p2};
use crate::text::{decimal, append_decimal, str_eq};

verus! {

/// `<{(a * b)} --> rel>`
pub open spec fn set_prod_rel(a: TermV, b: TermV, rel: Seq<char>) -> TermV {
    TermV::Stmt(
        Copula::INH,
        Box::new(TermV::List(ListKind::SetExt, seq![TermV::List(ListKind::Prod, seq![a, b])])),
        Box::new(TermV::Name(rel)),
    )
}

/// `<{a} --> rel>`
pub open spec fn set_rel(a: TermV, rel: Seq<char>) -> TermV {
    TermV::Stmt(Copula::INH, Box::new(TermV::List(ListKind::SetExt, seq![a])), Box::new(TermV::Name(rel)))
}

/// the relations for the words from position `idx` on:
/// - `a` or `an` before another word: `<{(word * idx)} --> a2>` for the word
///   after it, which it takes along
/// - `is`: `<{(is * idx)} --> rel2>` and `<{idx} --> TOKENis>`
/// - `and`: `<{idx} --> TOKENand>`
/// - `?`: `<{(QUESTION * idx)} --> sign2>`
/// - any other word: `<{(word * idx)} --> TOKEN>`
/// where `idx` stands for the name of the position in decimal
pub open spec fn spec_nlp_from(tokens: Seq<Seq<char>>, idx: nat) -> Seq<TermV>
    decreases tokens.len() - idx,
{
    if idx >= tokens.len() {
        Seq::empty()
    } else {
        let tok = tokens[idx as int];
        let pos = TermV::Name(decimal(idx));
        if (tok == "a"@ || tok == "an"@) && idx + 1 < tokens.len() {
            seq![set_prod_rel(TermV::Name(tokens[idx + 1 as int]), pos, "a2"@)] + spec_nlp_from(tokens, (idx + 2) as nat)
        } else if tok == "is"@ {
            seq![set_prod_rel(TermV::Name("is"@), pos, "rel2"@), set_rel(pos, "TOKENis"@)] + spec_nlp_from(tokens, (idx + 1) as nat)
        } else if tok == "and"@ {
            seq![set_rel(pos, "TOKENand"@)] + spec_nlp_from(tokens, (idx + 1) as nat)
        } else if tok == "?"@ {
            seq![set_prod_rel(TermV::Name("QUESTION"@), pos, "sign2"@)] + spec_nlp_from(tokens, (idx + 1) as nat)
        } else {
            seq![set_prod_rel(TermV::Name(tok), pos, "TOKEN"@)] + spec_nlp_from(tokens, (idx + 1) as nat)
        }
    }
}

/// the relations for all words of a sentence
pub open spec fn spec_nlp_relations(tokens: Seq<Seq<char>>) -> Seq<TermV> {
    spec_nlp_from(tokens, 0)
}

/// The articles `a` and `an` are read alike: before another word, either
/// yields `<{(word * idx)} --> a2>` for the word after it, where `idx` is the
/// article's position in decimal, and that word is taken along, so that the
/// relations go on with the word after it.
pub proof fn law_article(tokens: Seq<Seq<char>>, idx: nat)
    requires
        idx + 1 < tokens.len(),
        tokens[idx as int] == "a"@ || tokens[idx as int] == "an"@,
    ensures
        spec_nlp_from(tokens, idx) == seq![TermV::Stmt(
            Copula::INH,
            Box::new(TermV::List(ListKind::SetExt, seq![TermV::List(ListKind::Prod, seq![TermV::Name(tokens[idx + 1 as int]), TermV::Name(decimal(idx))])])),
            Box::new(TermV::Name("a2"@)),
        )] + spec_nlp_from(tokens, (idx + 2) as nat),
{
}

/// the words as texts
pub open spec fn tokens_view(v: Seq<String>) -> Seq<Seq<char>> {
    v.map_values(|t: String| t@)
}

/// the name of a position, in decimal
fn pos_name(idx: usize) -> (res: Term)
    ensures
        res@ == TermV::Name(decimal(idx as nat)),
{
    let mut t = String::new();
    append_decimal(idx as u64, &mut t);
    assert(t@ =~= decimal(idx as nat));
    Term::Name(t)
}

/// a name
fn name(n: &str) -> (res: Term)
    ensures
        res@ == TermV::Name(n@),
{
    Term::Name(String::from_str(n))
}

/// `<{(a * b)} --> rel>`
fn set_prod(a: &Term, b: &Term, rel: &str) -> (res: Term)
    ensures
        res@ == set_prod_rel(a@, b@, rel@),
{
    let prod = p2(a, b);
    let set = vec![Box::new(prod)];
    proof {
        lemma_view_list_ext(set@, seq![set@[0]@]);
    }
    s(Copula::INH, &Term::SetExt(set), &name(rel))
}

/// `<{a} --> rel>`
fn set_single(a: &Term, rel: &str) -> (res: Term)
    ensures
        res@ == set_rel(a@, rel@),
{
    let set = vec![Box::new(a.clone())];
    proof {
        lemma_view_list_ext(set@, seq![a@]);
    }
    s(Copula::INH, &Term::SetExt(set), &name(rel))
}

/// converts the words of a sentence to the relations by which they are given
/// to the reasoner of the language module
pub fn nlp_relations(tokens: &Vec<String>) -> (res: Vec<Term>)
    ensures
        terms_view(res@) == spec_nlp_relations(tokens_view(tokens@)),
{
    let ghost tv = tokens_view(tokens@);
    proof {
        reveal_strlit("a");
        reveal_strlit("an");
        reveal_strlit("is");
        reveal_strlit("and");
        reveal_strlit("?");
    }
    let mut res: Vec<Term> = Vec::new();
    let mut idx: usize = 0;
    while idx < tokens.len()
        invariant
            tv == tokens_view(tokens@),
            idx <= tokens.len() + 1,
            terms_view(res@) + spec_nlp_from(tv, idx as nat) == spec_nlp_relations(tv),
        decreases tokens.len() - idx,
    {
        let ghost before = terms_view(res@);
        let tok = tokens[idx].as_str();
        assert(tv[idx as int] == tok@);
        let pos = pos_name(idx);
        if (str_eq(tok, "a") || str_eq(tok, "an")) && idx + 1 < tokens.len() {
            assert(tv[idx + 1] == tokens@[idx + 1]@);
            let t = set_prod(&Term::Name(tokens[idx + 1].clone()), &pos, "a2");
            res.push(t);
            assert(terms_view(res@) =~= before.push(t@));
            assert(seq![t@] + spec_nlp_from(tv, (idx + 2) as nat) =~= spec_nlp_from(tv, idx as nat));
            assert(terms_view(res@) + spec_nlp_from(tv, (idx + 2) as nat) =~= before + spec_nlp_from(tv, idx as nat));
            idx += 2;
        } else if str_eq(tok, "is") {
            let t1 = set_prod(&name("is"), &pos, "rel2");
            let t2 = set_single(&pos, "TOKENis");
            res.push(t1);
            res.push(t2);
            assert(terms_view(res@) =~= before.push(t1@).push(t2@));
            assert(seq![t1@, t2@] + spec_nlp_from(tv, (idx + 1) as nat) =~= spec_nlp_from(tv, idx as nat));
            assert(terms_view(res@) + spec_nlp_from(tv, (idx + 1) as nat) =~= before + spec_nlp_from(tv, idx as nat));
            idx += 1;
        } else {
            let t = if str_eq(tok, "and") {
                set_single(&pos, "TOKENand")
            } else if str_eq(tok, "?") {
                set_prod(&name("QUESTION"), &pos, "sign2")
            } else {
                set_prod(&Term::Name(tokens[idx].clone()), &pos, "TOKEN")
            };
            res.push(t);
            assert(terms_view(res@) =~= before.push(t@));
            assert(seq![t@] + spec_nlp_from(tv, (idx + 1) as nat) =~= spec_nlp_from(tv, idx as nat));
            assert(terms_view(res@) + spec_nlp_from(tv, (idx + 1) as nat) =~= before + spec_nlp_from(tv, idx as nat));
            idx += 1;
        }
    }
    assert(spec_nlp_from(tv, idx as nat) =~= Seq::<TermV>::empty());
    assert(terms_view(res@) + Seq::<TermV>::empty() =~= terms_view(res@));
    res
}

} // verus!

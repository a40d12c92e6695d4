//! The Narsese grammar: terms and sentences written as text.

use vstd::prelude::*;
use vstd::utf8::is_ascii_chars;
use crate::term::{Term, TermV, Copula, ListKind, VarKind, terms_view, box_all, make_list, lemma_view_list_ext};
use crate::nar_sentence::EnumPunctation;

verus! {

// ---------------------------------------------------------------------------
// characters

/// `char::is_alphanumeric`: the Unicode Alphabetic or Numeric property
pub uninterp spec fn char_alphanumeric(c: char) -> bool;

/// `char::is_whitespace`: the Unicode White_Space property
pub uninterp spec fn char_whitespace(c: char) -> bool;

/// Calls `char::is_alphanumeric`; the result is named `char_alphanumeric`,
/// a function of the character alone (Unicode character properties). For
/// an ASCII character, as the documentation states, it holds exactly of the
/// letters and digits.
#[verifier::external_body]
fn char_is_alphanumeric(c: char) -> (r: bool)
    ensures
        r == char_alphanumeric(c),
        c <= '\x7f' ==> (r <==> ('0' <= c <= '9' || 'a' <= c <= 'z' || 'A' <= c <= 'Z')),
{
    c.is_alphanumeric()
}

/// Calls `char::is_whitespace`; the result is named `char_whitespace`,
/// a function of the character alone (the Unicode White_Space property).
/// For an ASCII character it holds exactly of tab, line feed, vertical tab,
/// form feed, carriage return and space.
#[verifier::external_body]
fn char_is_whitespace(c: char) -> (r: bool)
    ensures
        r == char_whitespace(c),
        c <= '\x7f' ==> (r <==> (c == '\t' || c == '\n' || c == '\u{0B}' || c == '\u{0C}' || c == '\r' || c == ' ')),
{
    c.is_whitespace()
}

/// the character is white space: for ASCII tab, line feed, vertical tab,
/// form feed, carriage return and space
pub open spec fn white_space(c: char) -> bool {
    if c <= '\x7f' {
        c == '\t' || c == '\n' || c == '\u{0B}' || c == '\u{0C}' || c == '\r' || c == ' '
    } else {
        char_whitespace(c)
    }
}

/// the character is a letter or a digit: for ASCII `a` to `z`, `A` to `Z`
/// and `0` to `9`
pub open spec fn alphanumeric(c: char) -> bool {
    if c <= '\x7f' {
        '0' <= c <= '9' || 'a' <= c <= 'z' || 'A' <= c <= 'Z'
    } else {
        char_alphanumeric(c)
    }
}

/// is the character white space?
pub(crate) fn char_whitespace_exec(c: char) -> (r: bool)
    ensures
        r == white_space(c),
{
    char_is_whitespace(c)
}

/// characters that may stand in a name
pub open spec fn valid_sign(c: char) -> bool {
    alphanumeric(c) || c == '-' || c == '_' || c == '^'
}

fn isValidSign(c: char) -> (r: bool)
    ensures
        r == valid_sign(c),
{
    char_is_alphanumeric(c) || c == '-' || c == '_' || c == '^'
}

// ---------------------------------------------------------------------------
// the grammar over a sequence of characters and a position in it

/// the text `t` stands at position `pos` of `s`
pub open spec fn tag_at(s: Seq<char>, pos: int, t: Seq<char>) -> bool {
    0 <= pos && pos + t.len() <= s.len() && s.subrange(pos, pos + t.len()) == t
}

/// number of name characters from `pos + k` on, up to 512 in all
pub open spec fn name_len(s: Seq<char>, pos: int, k: int) -> int
    decreases 512 - k,
{
    if 0 <= k < 512 && 0 <= pos + k < s.len() && valid_sign(s[pos + k]) {
        name_len(s, pos, k + 1)
    } else {
        k
    }
}

/// a name: between 1 and 512 name characters, as many as stand there;
/// the position after it
pub open spec fn spec_alpha2(s: Seq<char>, pos: int) -> Option<int> {
    let k = name_len(s, pos, 0);
    if k >= 1 {
        Some(pos + k)
    } else {
        None
    }
}

/// the first of two alternatives that succeeds
pub open spec fn or_else(a: Option<(TermV, int)>, b: Option<(TermV, int)>) -> Option<(TermV, int)> {
    if a is Some {
        a
    } else {
        b
    }
}

/// a copula between spaces
pub open spec fn spec_copula(s: Seq<char>, pos: int) -> Option<(Copula, int)> {
    if tag_at(s, pos, " --> "@) {
        Some((Copula::INH, pos + 5))
    } else if tag_at(s, pos, " <-> "@) {
        Some((Copula::SIM, pos + 5))
    } else if tag_at(s, pos, " ==> "@) {
        Some((Copula::IMPL, pos + 5))
    } else if tag_at(s, pos, " =/> "@) {
        Some((Copula::PREDIMPL, pos + 5))
    } else if tag_at(s, pos, " <=> "@) {
        Some((Copula::EQUIV, pos + 5))
    } else {
        None
    }
}

/// a subject or predicate: the first of these that matches at `pos`:
/// `{t}`, `(a,b)`, `(a|b)`, `[t]`, `(!t)`, `(a*b*...)`, `(a&&b)`,
/// `(a&&b&&c)`, `(a&&b&&c&&d)`, `<s copula p>`, `?name`, `#name`, `$name`, `name`
pub open spec fn spec_subj_or_pred(s: Seq<char>, pos: int) -> Option<(TermV, int)>
    decreases s.len() - pos, 10int,
{
    or_else(spec_set(s, pos, "{"@, "}"@, ListKind::SetExt),
    or_else(spec_pair(s, pos, ","@, ListKind::Sequence),
    or_else(spec_pair(s, pos, "|"@, ListKind::IntInt),
    or_else(spec_set(s, pos, "["@, "]"@, ListKind::SetInt),
    or_else(spec_neg(s, pos),
    or_else(spec_prod(s, pos),
    or_else(spec_conj(s, pos, 2),
    or_else(spec_conj(s, pos, 3),
    or_else(spec_conj(s, pos, 4),
    or_else(spec_statement(s, pos),
    or_else(spec_var(s, pos, "?"@, VarKind::Query),
    or_else(spec_var(s, pos, "#"@, VarKind::Dep),
    or_else(spec_var(s, pos, "$"@, VarKind::Indep),
    spec_name(s, pos))))))))))))))
}

/// a term in brackets, giving a set of one element
pub open spec fn spec_set(s: Seq<char>, pos: int, open: Seq<char>, close: Seq<char>, k: ListKind) -> Option<(TermV, int)>
    decreases s.len() - pos, 5int,
{
    if open.len() == 1 && tag_at(s, pos, open) {
        match spec_subj_or_pred(s, pos + 1) {
            Some((t, p1)) => if tag_at(s, p1, close) {
                Some((TermV::List(k, seq![t]), p1 + close.len()))
            } else {
                None
            },
            None => None,
        }
    } else {
        None
    }
}

/// `n` terms separated by `sep`, starting at `pos`
pub open spec fn spec_items(s: Seq<char>, pos: int, sep: Seq<char>, n: nat) -> Option<(Seq<TermV>, int)>
    decreases s.len() - pos, 11 + n,
{
    if n <= 1 {
        match spec_subj_or_pred(s, pos) {
            Some((t, p1)) => Some((seq![t], p1)),
            None => None,
        }
    } else {
        match spec_items(s, pos, sep, (n - 1) as nat) {
            Some((ts, p1)) => if pos < p1 && sep.len() >= 1 && tag_at(s, p1, sep) {
                match spec_subj_or_pred(s, p1 + sep.len()) {
                    Some((t, p2)) => Some((ts.push(t), p2)),
                    None => None,
                }
            } else {
                None
            },
            None => None,
        }
    }
}

/// `(a<sep>b)`, giving a compound of two elements
pub open spec fn spec_pair(s: Seq<char>, pos: int, sep: Seq<char>, k: ListKind) -> Option<(TermV, int)>
    decreases s.len() - pos, 5int,
{
    if tag_at(s, pos, "("@) {
        proof {
            reveal_strlit("(");
        }
        match spec_items(s, pos + 1, sep, 2) {
            Some((ts, p1)) => if tag_at(s, p1, ")"@) {
                Some((TermV::List(k, ts), p1 + 1))
            } else {
                None
            },
            None => None,
        }
    } else {
        None
    }
}

/// a conjunction of `n` terms `(a&&b...)`
pub open spec fn spec_conj(s: Seq<char>, pos: int, n: nat) -> Option<(TermV, int)>
    decreases s.len() - pos, 5int,
{
    if tag_at(s, pos, "("@) {
        proof {
            reveal_strlit("(");
        }
        match spec_items(s, pos + 1, "&&"@, n) {
            Some((ts, p1)) => if tag_at(s, p1, ")"@) {
                Some((TermV::List(ListKind::Conj, ts), p1 + 1))
            } else {
                None
            },
            None => None,
        }
    } else {
        None
    }
}

/// `(!t)`
pub open spec fn spec_neg(s: Seq<char>, pos: int) -> Option<(TermV, int)>
    decreases s.len() - pos, 5int,
{
    if tag_at(s, pos, "(!"@) {
        proof {
            reveal_strlit("(!");
        }
        match spec_subj_or_pred(s, pos + 2) {
            Some((t, p1)) => if tag_at(s, p1, ")"@) {
                Some((TermV::Neg(Box::new(t)), p1 + 1))
            } else {
                None
            },
            None => None,
        }
    } else {
        None
    }
}

/// further `*t` parts of a product
pub open spec fn spec_prod_rest(s: Seq<char>, pos: int, acc: Seq<TermV>) -> Option<(Seq<TermV>, int)>
    decreases s.len() - pos, 0int,
{
    if tag_at(s, pos, "*"@) {
        proof {
            reveal_strlit("*");
        }
        match spec_subj_or_pred(s, pos + 1) {
            Some((t, p1)) => if pos < p1 <= s.len() {
                spec_prod_rest(s, p1, acc.push(t))
            } else {
                None
            },
            None => None,
        }
    } else {
        Some((acc, pos))
    }
}

/// a product `(a*b*...)` of two or more terms
pub open spec fn spec_prod(s: Seq<char>, pos: int) -> Option<(TermV, int)>
    decreases s.len() - pos, 5int,
{
    if tag_at(s, pos, "("@) {
        proof {
            reveal_strlit("(");
        }
        match spec_items(s, pos + 1, "*"@, 2) {
            Some((ts, p1)) => if pos < p1 <= s.len() {
                match spec_prod_rest(s, p1, ts) {
                    Some((all, p2)) => if tag_at(s, p2, ")"@) {
                        Some((TermV::List(ListKind::Prod, all), p2 + 1))
                    } else {
                        None
                    },
                    None => None,
                }
            } else {
                None
            },
            None => None,
        }
    } else {
        None
    }
}

/// a statement `<subj copula pred>`
pub open spec fn spec_statement(s: Seq<char>, pos: int) -> Option<(TermV, int)>
    decreases s.len() - pos, 5int,
{
    if tag_at(s, pos, "<"@) {
        proof {
            reveal_strlit("<");
        }
        match spec_subj_or_pred(s, pos + 1) {
            Some((subj, p1)) => match spec_copula(s, p1) {
                Some((c, p2)) => if pos < p1 && p2 <= s.len() {
                    match spec_subj_or_pred(s, p2) {
                        Some((pred, p3)) => if tag_at(s, p3, ">"@) {
                            Some((TermV::Stmt(c, Box::new(subj), Box::new(pred)), p3 + 1))
                        } else {
                            None
                        },
                        None => None,
                    }
                } else {
                    None
                },
                None => None,
            },
            None => None,
        }
    } else {
        None
    }
}

/// a variable: its prefix and a name
pub open spec fn spec_var(s: Seq<char>, pos: int, prefix: Seq<char>, k: VarKind) -> Option<(TermV, int)>
    decreases s.len() - pos, 5int,
{
    if prefix.len() == 1 && tag_at(s, pos, prefix) {
        match spec_alpha2(s, pos + 1) {
            Some(p1) => Some((TermV::Var(k, s.subrange(pos + 1, p1)), p1)),
            None => None,
        }
    } else {
        None
    }
}

/// a name
pub open spec fn spec_name(s: Seq<char>, pos: int) -> Option<(TermV, int)>
    decreases s.len() - pos, 5int,
{
    match spec_alpha2(s, pos) {
        Some(p1) => Some((TermV::Name(s.subrange(pos, p1)), p1)),
        None => None,
    }
}

/// the name characters from `pos + j` on are counted up to `pos + k`
proof fn lemma_name_len_from(s: Seq<char>, pos: int, k: int, j: int)
    requires
        0 <= pos,
        0 <= j <= k <= 512,
        pos + k <= s.len(),
        forall|i: int| pos + j <= i < pos + k ==> valid_sign(#[trigger] s[i]),
        k == 512 || pos + k == s.len() || !valid_sign(s[pos + k]),
    ensures
        name_len(s, pos, j) == k,
    decreases k - j,
{
    if j < k {
        assert(valid_sign(s[pos + j]));
        lemma_name_len_from(s, pos, k, j + 1);
    }
}

/// A name is a run of ASCII letters, digits, `-`, `_` and `^` (such as the
/// operator name `^left`), of at most 512 characters: where such a run of
/// `k` characters stands at `pos` and the character after it is none of
/// these (or the text ends there), the run is parsed as one name atom
/// holding exactly these characters.
pub proof fn law_name_characters(s: Seq<char>, pos: int, k: int)
    requires
        0 <= pos,
        1 <= k <= 512,
        pos + k <= s.len(),
        forall|i: int| pos <= i < pos + k ==> {
            let c = #[trigger] s[i];
            '0' <= c <= '9' || 'a' <= c <= 'z' || 'A' <= c <= 'Z' || c == '-' || c == '_' || c == '^'
        },
        pos + k < s.len() ==> {
            let c = s[pos + k];
            c <= '\x7f' && !('0' <= c <= '9' || 'a' <= c <= 'z' || 'A' <= c <= 'Z' || c == '-' || c == '_' || c == '^')
        },
    ensures
        spec_alpha2(s, pos) == Some(pos + k),
        spec_name(s, pos) == Some((TermV::Name(s.subrange(pos, pos + k)), pos + k)),
{
    assert forall|i: int| pos <= i < pos + k implies valid_sign(#[trigger] s[i]) by {
        let c = s[i];
        if c == '-' || c == '_' || c == '^' {
        } else {
            assert(c <= '\x7f');
        }
    }
    lemma_name_len_from(s, pos, k, 0);
}

/// Where a subject or predicate is expected, such a run of name characters
/// is taken as a name atom: none of the compound forms, statements or
/// variables starts with a name character.
pub proof fn law_name_as_term(s: Seq<char>, pos: int, k: int)
    requires
        0 <= pos,
        1 <= k <= 512,
        pos + k <= s.len(),
        forall|i: int| pos <= i < pos + k ==> {
            let c = #[trigger] s[i];
            '0' <= c <= '9' || 'a' <= c <= 'z' || 'A' <= c <= 'Z' || c == '-' || c == '_' || c == '^'
        },
        pos + k < s.len() ==> {
            let c = s[pos + k];
            c <= '\x7f' && !('0' <= c <= '9' || 'a' <= c <= 'z' || 'A' <= c <= 'Z' || c == '-' || c == '_' || c == '^')
        },
    ensures
        spec_subj_or_pred(s, pos) == Some((TermV::Name(s.subrange(pos, pos + k)), pos + k)),
{
    reveal_strlit("{");
    reveal_strlit("[");
    reveal_strlit("(");
    reveal_strlit("(!");
    reveal_strlit("<");
    reveal_strlit("?");
    reveal_strlit("#");
    reveal_strlit("$");
    let c = s[pos];
    assert(c != '{' && c != '[' && c != '(' && c != '<' && c != '?' && c != '#' && c != '$');
    assert(!tag_at(s, pos, "{"@)) by {
        if tag_at(s, pos, "{"@) {
            assert(s.subrange(pos, pos + 1)[0] == s[pos]);
        }
    }
    assert(!tag_at(s, pos, "["@)) by {
        if tag_at(s, pos, "["@) {
            assert(s.subrange(pos, pos + 1)[0] == s[pos]);
        }
    }
    assert(!tag_at(s, pos, "("@)) by {
        if tag_at(s, pos, "("@) {
            assert(s.subrange(pos, pos + 1)[0] == s[pos]);
        }
    }
    assert(!tag_at(s, pos, "(!"@)) by {
        if tag_at(s, pos, "(!"@) {
            assert(s.subrange(pos, pos + 2)[0] == s[pos]);
        }
    }
    assert(!tag_at(s, pos, "<"@)) by {
        if tag_at(s, pos, "<"@) {
            assert(s.subrange(pos, pos + 1)[0] == s[pos]);
        }
    }
    assert(!tag_at(s, pos, "?"@)) by {
        if tag_at(s, pos, "?"@) {
            assert(s.subrange(pos, pos + 1)[0] == s[pos]);
        }
    }
    assert(!tag_at(s, pos, "#"@)) by {
        if tag_at(s, pos, "#"@) {
            assert(s.subrange(pos, pos + 1)[0] == s[pos]);
        }
    }
    assert(!tag_at(s, pos, "$"@)) by {
        if tag_at(s, pos, "$"@) {
            assert(s.subrange(pos, pos + 1)[0] == s[pos]);
        }
    }
    law_name_characters(s, pos, k);
}

// ---------------------------------------------------------------------------
// executable parser over a vector of characters

/// `res` is what the grammar function gave at `pos`: the parsed term and the
/// position after it, which lies after `pos`
pub open spec fn parsed_as(res: Option<(Term, usize)>, spec_res: Option<(TermV, int)>, pos: int, len: int) -> bool {
    match res {
        Some((t, p)) => spec_res == Some((t@, p as int)) && pos < p <= len,
        None => spec_res is None,
    }
}

/// the characters of a text
fn to_chars(input: &str) -> (res: Vec<char>)
    ensures
        res@ == input@,
{
    let n = input.unicode_len();
    let mut v: Vec<char> = Vec::new();
    let mut i: usize = 0;
    while i < n
        invariant
            n == input@.len(),
            i <= n,
            v@ == input@.subrange(0, i as int),
        decreases n - i,
    {
        let c = input.get_char(i);
        v.push(c);
        i += 1;
        assert(v@ =~= input@.subrange(0, i as int));
    }
    assert(input@.subrange(0, n as int) =~= input@);
    v
}

/// does the text `t` stand at position `pos`?
fn tag(s: &Vec<char>, pos: usize, t: &str) -> (r: bool)
    requires
        pos <= s.len(),
    ensures
        r == tag_at(s@, pos as int, t@),
{
    let n = t.unicode_len();
    if n > s.len() - pos {
        return false;
    }
    let mut i: usize = 0;
    while i < n
        invariant
            n == t@.len(),
            pos + n <= s.len(),
            i <= n,
            forall|j: int| 0 <= j < i ==> s@[pos + j] == t@[j],
        decreases n - i,
    {
        if s[pos + i] != t.get_char(i) {
            assert(s@.subrange(pos as int, pos + n)[i as int] != t@[i as int]);
            return false;
        }
        i += 1;
    }
    assert(s@.subrange(pos as int, pos + n) =~= t@);
    true
}

/// the position after a name at `pos`
fn alpha2(s: &Vec<char>, pos: usize) -> (r: Option<usize>)
    requires
        pos <= s.len(),
    ensures
        r matches Some(p) ==> spec_alpha2(s@, pos as int) == Some(p as int) && pos < p <= s.len(),
        r is None ==> spec_alpha2(s@, pos as int) is None,
{
    let mut k: usize = 0;
    while k < 512 && k < s.len() - pos && isValidSign(s[pos + k])
        invariant
            k <= 512,
            pos + k <= s.len(),
            name_len(s@, pos as int, k as int) == name_len(s@, pos as int, 0),
        decreases 512 - k,
    {
        k += 1;
    }
    if k >= 1 {
        Some(pos + k)
    } else {
        None
    }
}

/// a copula between spaces at `pos`
fn parseCopula(s: &Vec<char>, pos: usize) -> (r: Option<(Copula, usize)>)
    requires
        pos <= s.len(),
    ensures
        r matches Some((c, p)) ==> spec_copula(s@, pos as int) == Some((c, p as int)) && p <= s.len(),
        r is None ==> spec_copula(s@, pos as int) is None,
{
    proof {
        reveal_strlit(" --> ");
        reveal_strlit(" <-> ");
        reveal_strlit(" ==> ");
        reveal_strlit(" =/> ");
        reveal_strlit(" <=> ");
    }
    if tag(s, pos, " --> ") {
        Some((Copula::INH, pos + 5))
    } else if tag(s, pos, " <-> ") {
        Some((Copula::SIM, pos + 5))
    } else if tag(s, pos, " ==> ") {
        Some((Copula::IMPL, pos + 5))
    } else if tag(s, pos, " =/> ") {
        Some((Copula::PREDIMPL, pos + 5))
    } else if tag(s, pos, " <=> ") {
        Some((Copula::EQUIV, pos + 5))
    } else {
        None
    }
}

/// a subject or predicate at `pos`
fn parseSubjOrPred(input: &str, s: &Vec<char>, pos: usize) -> (res: Option<(Term, usize)>)
    requires
        s@ == input@,
        pos <= s.len(),
    ensures
        parsed_as(res, spec_subj_or_pred(s@, pos as int), pos as int, s.len() as int),
    decreases s.len() - pos, 10int,
{
    proof {
        reveal_strlit("{");
        reveal_strlit("}");
        reveal_strlit("[");
        reveal_strlit("]");
        reveal_strlit("?");
        reveal_strlit("#");
        reveal_strlit("$");
    }
    let r = parseSet(input, s, pos, "{", "}", ListKind::SetExt);
    if r.is_some() {
        return r;
    }
    let r = parsePair(input, s, pos, ",", ListKind::Sequence);
    if r.is_some() {
        return r;
    }
    let r = parsePair(input, s, pos, "|", ListKind::IntInt);
    if r.is_some() {
        return r;
    }
    let r = parseSet(input, s, pos, "[", "]", ListKind::SetInt);
    if r.is_some() {
        return r;
    }
    let r = parseNegAt(input, s, pos);
    if r.is_some() {
        return r;
    }
    let r = parseProdAt(input, s, pos);
    if r.is_some() {
        return r;
    }
    let r = parseConjAt(input, s, pos, 2);
    if r.is_some() {
        return r;
    }
    let r = parseConjAt(input, s, pos, 3);
    if r.is_some() {
        return r;
    }
    let r = parseConjAt(input, s, pos, 4);
    if r.is_some() {
        return r;
    }
    let r = parseStatementAt(input, s, pos);
    if r.is_some() {
        return r;
    }
    let r = parseVar(input, s, pos, "?", VarKind::Query);
    if r.is_some() {
        return r;
    }
    let r = parseVar(input, s, pos, "#", VarKind::Dep);
    if r.is_some() {
        return r;
    }
    let r = parseVar(input, s, pos, "$", VarKind::Indep);
    if r.is_some() {
        return r;
    }
    b(input, s, pos)
}

/// `{t}` or `[t]`
fn parseSet(input: &str, s: &Vec<char>, pos: usize, open: &str, close: &str, k: ListKind) -> (res: Option<(Term, usize)>)
    requires
        s@ == input@,
        pos <= s.len(),
        open@.len() == 1,
        close@.len() == 1,
    ensures
        parsed_as(res, spec_set(s@, pos as int, open@, close@, k), pos as int, s.len() as int),
    decreases s.len() - pos, 5int,
{
    if !tag(s, pos, open) {
        return None;
    }
    match parseSubjOrPred(input, s, pos + 1) {
        Some((t, p1)) => {
            if tag(s, p1, close) {
                let arr = vec![Box::new(t)];
                proof {
                    lemma_view_list_ext(arr@, seq![t@]);
                }
                Some((make_list(k, arr), p1 + 1))
            } else {
                None
            }
        },
        None => None,
    }
}

/// `n` terms separated by `sep` from `pos` on
fn parseItems(input: &str, s: &Vec<char>, pos: usize, sep: &str, n: usize) -> (res: Option<(Vec<Term>, usize)>)
    requires
        s@ == input@,
        pos <= s.len(),
    ensures
        match res {
            Some((ts, p)) => spec_items(s@, pos as int, sep@, n as nat) == Some((terms_view(ts@), p as int)) && pos < p <= s.len(),
            None => spec_items(s@, pos as int, sep@, n as nat) is None,
        },
    decreases s.len() - pos, 11 + n,
{
    if n <= 1 {
        match parseSubjOrPred(input, s, pos) {
            Some((t, p1)) => {
                let v = vec![t];
                assert(terms_view(v@) =~= seq![t@]);
                Some((v, p1))
            },
            None => None,
        }
    } else {
        match parseItems(input, s, pos, sep, n - 1) {
            Some((ts, p1)) => {
                let seplen = sep.unicode_len();
                if seplen >= 1 && tag(s, p1, sep) {
                    match parseSubjOrPred(input, s, p1 + seplen) {
                        Some((t, p2)) => {
                            let mut ts = ts;
                            let ghost prev = ts@;
                            ts.push(t);
                            assert(terms_view(ts@) =~= terms_view(prev).push(t@));
                            Some((ts, p2))
                        },
                        None => None,
                    }
                } else {
                    None
                }
            },
            None => None,
        }
    }
}

/// `(a<sep>b)`
fn parsePair(input: &str, s: &Vec<char>, pos: usize, sep: &str, k: ListKind) -> (res: Option<(Term, usize)>)
    requires
        s@ == input@,
        pos <= s.len(),
    ensures
        parsed_as(res, spec_pair(s@, pos as int, sep@, k), pos as int, s.len() as int),
    decreases s.len() - pos, 5int,
{
    proof {
        reveal_strlit("(");
        reveal_strlit(")");
    }
    if !tag(s, pos, "(") {
        return None;
    }
    match parseItems(input, s, pos + 1, sep, 2) {
        Some((ts, p1)) => {
            if tag(s, p1, ")") {
                Some((make_list(k, box_all(&ts)), p1 + 1))
            } else {
                None
            }
        },
        None => None,
    }
}

/// a conjunction of `n` terms
fn parseConjAt(input: &str, s: &Vec<char>, pos: usize, n: usize) -> (res: Option<(Term, usize)>)
    requires
        s@ == input@,
        pos <= s.len(),
    ensures
        parsed_as(res, spec_conj(s@, pos as int, n as nat), pos as int, s.len() as int),
    decreases s.len() - pos, 5int,
{
    proof {
        reveal_strlit("(");
        reveal_strlit(")");
    }
    if !tag(s, pos, "(") {
        return None;
    }
    match parseItems(input, s, pos + 1, "&&", n) {
        Some((ts, p1)) => {
            if tag(s, p1, ")") {
                Some((crate::term_api::conj(&ts), p1 + 1))
            } else {
                None
            }
        },
        None => None,
    }
}

/// `(!t)`
fn parseNegAt(input: &str, s: &Vec<char>, pos: usize) -> (res: Option<(Term, usize)>)
    requires
        s@ == input@,
        pos <= s.len(),
    ensures
        parsed_as(res, spec_neg(s@, pos as int), pos as int, s.len() as int),
    decreases s.len() - pos, 5int,
{
    proof {
        reveal_strlit("(!");
        reveal_strlit(")");
    }
    if !tag(s, pos, "(!") {
        return None;
    }
    match parseSubjOrPred(input, s, pos + 2) {
        Some((a, p1)) => {
            if tag(s, p1, ")") {
                Some((Term::Neg(Box::new(a)), p1 + 1))
            } else {
                None
            }
        },
        None => None,
    }
}

/// further `*t` parts of a product, appended to `subterms`
fn parseProdRest(input: &str, s: &Vec<char>, pos: usize, subterms: Vec<Term>) -> (res: Option<(Vec<Term>, usize)>)
    requires
        s@ == input@,
        pos <= s.len(),
    ensures
        match res {
            Some((ts, p)) => spec_prod_rest(s@, pos as int, terms_view(subterms@)) == Some((terms_view(ts@), p as int)) && pos <= p <= s.len(),
            None => spec_prod_rest(s@, pos as int, terms_view(subterms@)) is None,
        },
    decreases s.len() - pos, 0int,
{
    proof {
        reveal_strlit("*");
    }
    if !tag(s, pos, "*") {
        return Some((subterms, pos));
    }
    match parseSubjOrPred(input, s, pos + 1) {
        Some((subterm, p1)) => {
            let mut subterms = subterms;
            let ghost prev = subterms@;
            subterms.push(subterm);
            assert(terms_view(subterms@) =~= terms_view(prev).push(subterm@));
            parseProdRest(input, s, p1, subterms)
        },
        None => None,
    }
}

/// a product of two or more terms
fn parseProdAt(input: &str, s: &Vec<char>, pos: usize) -> (res: Option<(Term, usize)>)
    requires
        s@ == input@,
        pos <= s.len(),
    ensures
        parsed_as(res, spec_prod(s@, pos as int), pos as int, s.len() as int),
    decreases s.len() - pos, 5int,
{
    proof {
        reveal_strlit("(");
        reveal_strlit(")");
    }
    if !tag(s, pos, "(") {
        return None;
    }
    match parseItems(input, s, pos + 1, "*", 2) {
        Some((subterms, p1)) => {
            match parseProdRest(input, s, p1, subterms) {
                Some((all, p2)) => {
                    if tag(s, p2, ")") {
                        Some((crate::term_api::p(&all), p2 + 1))
                    } else {
                        None
                    }
                },
                None => None,
            }
        },
        None => None,
    }
}

/// a statement `<subj copula pred>`
fn parseStatementAt(input: &str, s: &Vec<char>, pos: usize) -> (res: Option<(Term, usize)>)
    requires
        s@ == input@,
        pos <= s.len(),
    ensures
        parsed_as(res, spec_statement(s@, pos as int), pos as int, s.len() as int),
    decreases s.len() - pos, 5int,
{
    proof {
        reveal_strlit("<");
        reveal_strlit(">");
    }
    if !tag(s, pos, "<") {
        return None;
    }
    match parseSubjOrPred(input, s, pos + 1) {
        Some((subj, p1)) => {
            match parseCopula(s, p1) {
                Some((copula, p2)) => {
                    match parseSubjOrPred(input, s, p2) {
                        Some((pred, p3)) => {
                            if tag(s, p3, ">") {
                                Some((crate::term_api::s(copula, &subj, &pred), p3 + 1))
                            } else {
                                None
                            }
                        },
                        None => None,
                    }
                },
                None => None,
            }
        },
        None => None,
    }
}

/// a variable with the given prefix
fn parseVar(input: &str, s: &Vec<char>, pos: usize, prefix: &str, k: VarKind) -> (res: Option<(Term, usize)>)
    requires
        s@ == input@,
        pos <= s.len(),
        prefix@.len() == 1,
    ensures
        parsed_as(res, spec_var(s@, pos as int, prefix@, k), pos as int, s.len() as int),
    decreases s.len() - pos, 5int,
{
    if !tag(s, pos, prefix) {
        return None;
    }
    match alpha2(s, pos + 1) {
        Some(p1) => {
            let name = String::from_str(input.substring_char(pos + 1, p1));
            let t = match k {
                VarKind::Query => Term::QVar(name),
                VarKind::Dep => Term::DepVar(name),
                VarKind::Indep => Term::IndepVar(name),
            };
            Some((t, p1))
        },
        None => None,
    }
}

/// a name
fn b(input: &str, s: &Vec<char>, pos: usize) -> (res: Option<(Term, usize)>)
    requires
        s@ == input@,
        pos <= s.len(),
    ensures
        parsed_as(res, spec_name(s@, pos as int), pos as int, s.len() as int),
    decreases s.len() - pos, 5int,
{
    match alpha2(s, pos) {
        Some(p1) => {
            let name = String::from_str(input.substring_char(pos, p1));
            Some((Term::Name(name), p1))
        },
        None => None,
    }
}

// ---------------------------------------------------------------------------
// entry points on text

/// `res` is what the grammar function gave at the start of `input`: the
/// term and the rest of the text after it
pub open spec fn parse_result(input: Seq<char>, spec_res: Option<(TermV, int)>, res: Option<(&str, Term)>) -> bool {
    match res {
        Some((rest, t)) => spec_res is Some && spec_res.unwrap().0 == t@
            && rest@ == input.subrange(spec_res.unwrap().1, input.len() as int),
        None => spec_res is None,
    }
}

/// the rest of `input` after a parse of it
fn finish<'a>(input: &'a str, s: &Vec<char>, r: Option<(Term, usize)>) -> (res: Option<(&'a str, Term)>)
    requires
        s@ == input@,
        r matches Some((_, p)) ==> p <= s.len(),
    ensures
        match r {
            Some((t, p)) => (res matches Some((rest, t2)) && t2@ == t@ && rest@ == input@.subrange(p as int, input@.len() as int)),
            None => res is None,
        },
{
    match r {
        Some((t, p)) => Some((input.substring_char(p, s.len()), t)),
        None => None,
    }
}

/// `(!t)` at the start of `input`
pub fn parseNeg(input: &str) -> (res: Option<(&str, Term)>)
    ensures
        parse_result(input@, spec_neg(input@, 0), res),
{
    let s = to_chars(input);
    let r = parseNegAt(input, &s, 0);
    finish(input, &s, r)
}

/// `(a,b)` at the start of `input`
pub fn parseSeq2(input: &str) -> (res: Option<(&str, Term)>)
    ensures
        parse_result(input@, spec_pair(input@, 0, ","@, ListKind::Sequence), res),
{
    let s = to_chars(input);
    let r = parsePair(input, &s, 0, ",", ListKind::Sequence);
    finish(input, &s, r)
}

/// `(a|b)` at the start of `input`
pub fn parseIntInt2(input: &str) -> (res: Option<(&str, Term)>)
    ensures
        parse_result(input@, spec_pair(input@, 0, "|"@, ListKind::IntInt), res),
{
    let s = to_chars(input);
    let r = parsePair(input, &s, 0, "|", ListKind::IntInt);
    finish(input, &s, r)
}

/// a product `(a*b*...)` at the start of `input`
pub fn parseProd(input: &str) -> (res: Option<(&str, Term)>)
    ensures
        parse_result(input@, spec_prod(input@, 0), res),
{
    let s = to_chars(input);
    let r = parseProdAt(input, &s, 0);
    finish(input, &s, r)
}

/// `(a&&b)` at the start of `input`
pub fn parseConj2(input: &str) -> (res: Option<(&str, Term)>)
    ensures
        parse_result(input@, spec_conj(input@, 0, 2), res),
{
    let s = to_chars(input);
    let r = parseConjAt(input, &s, 0, 2);
    finish(input, &s, r)
}

/// `(a&&b&&c)` at the start of `input`
pub fn parseConj3(input: &str) -> (res: Option<(&str, Term)>)
    ensures
        parse_result(input@, spec_conj(input@, 0, 3), res),
{
    let s = to_chars(input);
    let r = parseConjAt(input, &s, 0, 3);
    finish(input, &s, r)
}

/// `(a&&b&&c&&d)` at the start of `input`
pub fn parseConj4(input: &str) -> (res: Option<(&str, Term)>)
    ensures
        parse_result(input@, spec_conj(input@, 0, 4), res),
{
    let s = to_chars(input);
    let r = parseConjAt(input, &s, 0, 4);
    finish(input, &s, r)
}

/// a statement `<subj copula pred>` at the start of `input`
pub fn parseStatement(input: &str) -> (res: Option<(&str, Term)>)
    ensures
        parse_result(input@, spec_statement(input@, 0), res),
{
    let s = to_chars(input);
    let r = parseStatementAt(input, &s, 0);
    finish(input, &s, r)
}

/// a term at the start of `input`: a statement, a single term etc.
pub fn parseEntry(input: &str) -> (res: Option<(&str, Term)>)
    ensures
        parse_result(input@, spec_subj_or_pred(input@, 0), res),
{
    let s = to_chars(input);
    let r = parseSubjOrPred(input, &s, 0);
    finish(input, &s, r)
}

// ---------------------------------------------------------------------------
// sentences

/// the position of the last `{` at index 1 to `idx`
pub open spec fn last_open_brace(s: Seq<char>, idx: int) -> Option<int>
    decreases idx,
{
    if idx < 1 || idx >= s.len() {
        None
    } else if s[idx] == '{' {
        Some(idx)
    } else {
        last_open_brace(s, idx - 1)
    }
}

/// the position of the first space at `i` or later
pub open spec fn space_from(t: Seq<char>, i: int) -> Option<int>
    decreases t.len() - i,
{
    if i < 0 || i >= t.len() {
        None
    } else if t[i] == ' ' {
        Some(i)
    } else {
        space_from(t, i + 1)
    }
}

/// the two parts of a text with exactly one space
pub open spec fn split_pair(t: Seq<char>) -> Option<(Seq<char>, Seq<char>)> {
    match space_from(t, 0) {
        Some(k) => if space_from(t, k + 1) is None {
            Some((t.subrange(0, k), t.subrange(k + 1, t.len() as int)))
        } else {
            None
        },
        None => None,
    }
}

/// a truth value `{f c}` at the end of the text: the position of its `{`
/// and the texts of frequency and confidence
pub open spec fn tv_cut(s: Seq<char>) -> Option<(int, Seq<char>, Seq<char>)> {
    if s.len() > 0 && s[s.len() - 1] == '}' {
        match last_open_brace(s, s.len() - 1) {
            Some(idx) => match split_pair(s.subrange(idx + 1, s.len() - 1)) {
                Some((f, c)) => Some((idx, f, c)),
                None => None,
            },
            None => None,
        }
    } else {
        None
    }
}

/// finds out if narsese has a truth value and returns its frequency and
/// confidence as texts if it does; cuts the truth value away then
pub fn parseNarseseRetTv(narsese: &mut String) -> (tv: Option<(String, String)>)
    requires
        is_ascii_chars(old(narsese)@),
    ensures
        match tv_cut(old(narsese)@) {
            Some((idx, f, c)) => final(narsese)@ == old(narsese)@.subrange(0, idx)
                && (tv matches Some((fs, cs)) && fs@ == f && cs@ == c),
            None => final(narsese)@ == old(narsese)@ && tv is None,
        },
{
    let s = to_chars(narsese.as_str());
    let len = s.len();
    if len > 0 && s[len - 1] == '}' {
        let mut revIdx: usize = 1;
        while revIdx < len
            invariant
                s@ == narsese@,
                narsese@ == old(narsese)@,
                len == s.len(),
                len > 0,
                s@[len - 1] == '}',
                1 <= revIdx <= len,
                last_open_brace(s@, len - 1) == last_open_brace(s@, len - revIdx),
            decreases len - revIdx,
        {
            let idx = len - revIdx;
            if s[idx] == '{' {
                assert(idx + 1 <= len - 1);
                // the truth value text between the braces, split at spaces
                let ghost t = s@.subrange(idx + 1, len - 1);
                let mut k: usize = idx + 1;
                while k < len - 1 && s[k] != ' '
                    invariant
                        idx + 1 <= k <= len - 1,
                        len == s.len(),
                        t == s@.subrange(idx + 1, len - 1),
                        space_from(t, 0) == space_from(t, k - idx - 1),
                    decreases len - k,
                {
                    assert(t[k - idx - 1] == s@[k as int]);
                    k += 1;
                }
                if k < len - 1 {
                    assert(t[k - idx - 1] == s@[k as int]);
                    let mut k2: usize = k + 1;
                    while k2 < len - 1 && s[k2] != ' '
                        invariant
                            idx + 1 <= k,
                            k + 1 <= k2 <= len - 1,
                            len == s.len(),
                            t == s@.subrange(idx + 1, len - 1),
                            space_from(t, k - idx) == space_from(t, k2 - idx - 1),
                        decreases len - k2,
                    {
                        assert(t[k2 - idx - 1] == s@[k2 as int]);
                        k2 += 1;
                    }
                    if k2 == len - 1 {
                        let f = String::from_str(narsese.as_str().substring_char(idx + 1, k));
                        let c = String::from_str(narsese.as_str().substring_char(k + 1, len - 1));
                        let cut = String::from_str(narsese.as_str().substring_char(0, idx));
                        *narsese = cut;
                        assert(f@ =~= t.subrange(0, k - idx - 1));
                        assert(c@ =~= t.subrange(k - idx, t.len() as int));
                        return Some((f, c));
                    }
                    assert(t[k2 - idx - 1] == s@[k2 as int]);
                }
                return None;
            }
            revIdx += 1;
        }
    }
    None
}

/// the text ends in ` :|:`, the mark of an event
pub open spec fn event_suffix(s: Seq<char>) -> bool {
    s.len() >= 4 && s.subrange(s.len() - 4, s.len() as int) == " :|:"@
}

/// the length of the text without white space at its end
pub open spec fn trimmed_len(s: Seq<char>, n: int) -> int
    decreases n,
{
    if 0 < n <= s.len() && white_space(s[n - 1]) {
        trimmed_len(s, n - 1)
    } else {
        n
    }
}

/// the punctuation a character stands for
pub open spec fn punctuation_of(c: char) -> Option<EnumPunctation> {
    if c == '.' {
        Some(EnumPunctation::JUGEMENT)
    } else if c == '!' {
        Some(EnumPunctation::GOAL)
    } else if c == '?' {
        Some(EnumPunctation::QUESTION)
    } else {
        None
    }
}

/// a sentence as text: the truth value texts that were cut away, and the
/// term, punctuation and event mark where the rest parses
pub open spec fn spec_parse_narsese(s: Seq<char>) -> (Option<(Seq<char>, Seq<char>)>, Option<(TermV, EnumPunctation, bool)>) {
    let ev = event_suffix(s);
    let s1 = if ev { s.subrange(0, s.len() - 4) } else { s };
    let cut = tv_cut(s1);
    let s2 = match cut {
        Some((idx, _, _)) => s1.subrange(0, idx),
        None => s1,
    };
    let tv = match cut {
        Some((_, f, c)) => Some((f, c)),
        None => None,
    };
    let n = trimmed_len(s2, s2.len() as int);
    if n == 0 {
        (tv, None)
    } else {
        match punctuation_of(s2[n - 1]) {
            Some(punct) => match spec_subj_or_pred(s2.subrange(0, n - 1), 0) {
                Some((t, _)) => (tv, Some((t, punct, ev))),
                None => (tv, None),
            },
            None => (tv, None),
        }
    }
}

/// the model of the result of `parseNarsese`
pub open spec fn narsese_view(r: (Option<(String, String)>, Option<(Term, EnumPunctation, bool)>)) -> (Option<(Seq<char>, Seq<char>)>, Option<(TermV, EnumPunctation, bool)>) {
    (
        match r.0 {
            Some((f, c)) => Some((f@, c@)),
            None => None,
        },
        match r.1 {
            Some((t, p, e)) => Some((t@, p, e)),
            None => None,
        },
    )
}

/// parses a sentence: the truth value texts (frequency and confidence) if it
/// has a truth value, and the term, punctuation and whether it is an event
/// if the rest parses
pub fn parseNarsese(narsese: &String) -> (res: (Option<(String, String)>, Option<(Term, EnumPunctation, bool)>))
    requires
        is_ascii_chars(narsese@),
    ensures
        narsese_view(res) == spec_parse_narsese(narsese@),
{
    let mut narsese2: String = narsese.clone();
    let len = narsese2.as_str().unicode_len();

    let mut isEvent = false;
    proof {
        reveal_strlit(" :|:");
    }
    if len >= 4 && narsese2.as_str().get_char(len - 4) == ' ' && narsese2.as_str().get_char(len - 3) == ':'
        && narsese2.as_str().get_char(len - 2) == '|' && narsese2.as_str().get_char(len - 1) == ':' {
        isEvent = true;
        narsese2 = String::from_str(narsese2.as_str().substring_char(0, len - 4));
        assert(narsese@.subrange(len - 4, len as int) =~= " :|:"@);
    } else {
        assert(len >= 4 ==> narsese@.subrange(len - 4, len as int)[0] == narsese@[len - 4]);
        assert(len >= 4 ==> narsese@.subrange(len - 4, len as int)[1] == narsese@[len - 3]);
        assert(len >= 4 ==> narsese@.subrange(len - 4, len as int)[2] == narsese@[len - 2]);
        assert(len >= 4 ==> narsese@.subrange(len - 4, len as int)[3] == narsese@[len - 1]);
    }
    let ghost s1 = narsese2@;
    assert(s1 == if event_suffix(narsese@) { narsese@.subrange(0, narsese@.len() - 4) } else { narsese@ });
    assert(isEvent == event_suffix(narsese@));
    assert(is_ascii_chars(s1)) by {
        assert forall|i: int| 0 <= i < s1.len() implies '\0' <= #[trigger] s1[i] <= '\u{7f}' by {
            assert(s1[i] == narsese@[i]);
        }
    }

    let tv = parseNarseseRetTv(&mut narsese2);
    let ghost s2 = narsese2@;
    assert(s2 == match tv_cut(s1) {
        Some((idx, _, _)) => s1.subrange(0, idx),
        None => s1,
    });

    // trim white space at the end
    let mut n = narsese2.as_str().unicode_len();
    while n > 0 && char_whitespace_exec(narsese2.as_str().get_char(n - 1))
        invariant
            n <= s2.len(),
            narsese2@ == s2,
            trimmed_len(s2, n as int) == trimmed_len(s2, s2.len() as int),
        decreases n,
    {
        n -= 1;
    }
    let narsese3 = String::from_str(narsese2.as_str().substring_char(0, n));
    assert(trimmed_len(s2, n as int) == n);
    assert(narsese3@ == s2.subrange(0, n as int));

    if n == 0 {
        return (tv, None); // can't parse empty string!
    }

    let punctationChar = narsese3.as_str().get_char(n - 1);
    let narseseInner = String::from_str(narsese3.as_str().substring_char(0, n - 1));
    assert(punctationChar == s2[n - 1]);
    assert(narseseInner@ =~= s2.subrange(0, n - 1));

    let punctation = if punctationChar == '.' {
        EnumPunctation::JUGEMENT
    } else if punctationChar == '!' {
        EnumPunctation::GOAL
    } else if punctationChar == '?' {
        EnumPunctation::QUESTION
    } else {
        return (tv, None);
    };

    match parseEntry(narseseInner.as_str()) {
        Some((_str2, term)) => (tv, Some((term, punctation, isEvent))),
        None => (tv, None),
    }
}

} // verus!

//! Facade which consumes Narsese, comments, empty lines and commands: the
//! decision what a line of input asks for. The caller carries it out.

use vstd::prelude::*;
use crate::narsese_parser::white_space;
use crate::proc_tic_tac_toe::{without_newlines, trimNewline};
use crate::text::str_eq;
use crate::term::{Term, TermV, Copula, ListKind, lemma_view_list, lemma_view_list_ext};
use crate::nar_sentence::EnumPunctation;

verus! {

/// what a line of input asks for
#[derive(Debug)]
pub enum InputCommand {
    /// a comment or an empty line, or an operator registration that is not supported
    Nothing,
    /// `!sp`: a step of the procedural reasoner (both of its parts)
    StepProcedural,
    /// `!s` or `!s<n>`: run the given number of reasoning cycles
    Cycles(i64),
    /// `!por execinj`: register the operator that executes a sequence and injects an event
    RegisterExecInject,
    /// `!por nlpRel0`: register the operator that adds a relation from natural language
    RegisterNlpRel0,
    /// `!por NOP <name>`: register an operator without effect under the name
    RegisterNop(String),
    /// `!pse`: show the evidence of the procedural reasoner
    ShowEvidence,
    /// `!peb 0` or `!peb 1`: disable or enable motor babbling
    Babbling(bool),
    /// `!.nlp2 <text>`: natural language for the second language module (the text keeps its leading space)
    Nlp2(String),
    /// `!.nlp <text>`: natural language for the language module
    Nlp(String),
    /// `!dt`: show the tasks
    DebugTasks,
    /// `!dmd`: show the size of declarative memory
    DebugMemory,
    /// `!QQ`: quit
    Quit,
    /// any other line: Narsese input
    Narsese(String),
}

/// `s` starts with `p`
pub open spec fn has_prefix(s: Seq<char>, p: Seq<char>) -> bool {
    p.len() <= s.len() && s.subrange(0, p.len() as int) == p
}

/// the words of a text: the maximal runs of characters that are not white space
pub open spec fn words(s: Seq<char>) -> Seq<Seq<char>>
    decreases s.len(),
{
    if s.len() == 0 {
        Seq::empty()
    } else {
        let w = words(s.drop_last());
        let c = s.last();
        if white_space(c) {
            w
        } else if s.len() >= 2 && !white_space(s[s.len() - 2]) && w.len() > 0 {
            w.update(w.len() - 1, w.last().push(c))
        } else {
            w.push(seq![c])
        }
    }
}

/// value of a nonempty sequence of decimal digits
pub open spec fn digits_value(d: Seq<char>) -> int
    decreases d.len(),
{
    if d.len() == 0 {
        0
    } else {
        digits_value(d.drop_last()) * 10 + (d.last() as int - '0' as int)
    }
}

/// `i64::from_str`: an optional `+` or `-` sign followed by one or more
/// decimal digits, whose value fits into an `i64`
pub open spec fn parse_i64_spec(t: Seq<char>) -> Option<i64> {
    let neg = t.len() > 0 && t[0] == '-';
    let d = if t.len() > 0 && (t[0] == '-' || t[0] == '+') { t.skip(1) } else { t };
    if d.len() > 0 && (forall|i: int| 0 <= i < d.len() ==> '0' <= #[trigger] d[i] <= '9') {
        let v = if neg { -digits_value(d) } else { digits_value(d) };
        if i64::MIN <= v <= i64::MAX {
            Some(v as i64)
        } else {
            None
        }
    } else {
        None
    }
}

/// Calls `str::parse::<i64>` (`i64::from_str`). As its documentation states, the
/// text must be an optional `+` or `-` sign followed by decimal digits only, and
/// the value must fit into an `i64`; otherwise the parse fails.
#[verifier::external_body]
fn parse_i64(t: &str) -> (r: Option<i64>)
    ensures
        r == parse_i64_spec(t@),
{
    t.parse::<i64>().ok()
}

/// the number of cycles of a `!s` command
pub open spec fn cycles_of(s: Seq<char>) -> i64 {
    if s.len() == 2 {
        1
    } else {
        parse_i64_spec(s.skip(2)).unwrap()
    }
}

/// the line is a `!s` command whose number cannot be read
pub open spec fn bad_cycles(line: Seq<char>) -> bool {
    let s = without_newlines(line);
    !has_prefix(s, "//"@) && !has_prefix(s, "!sp"@) && has_prefix(s, "!s"@) && s.len() > 2 && parse_i64_spec(s.skip(2)) is None
}

/// what a line of input asks for
pub open spec fn command_of(c: InputCommand, line: Seq<char>) -> bool {
    let s = without_newlines(line);
    if has_prefix(s, "//"@) {
        c is Nothing
    } else if has_prefix(s, "!sp"@) {
        c is StepProcedural
    } else if has_prefix(s, "!s"@) {
        c == InputCommand::Cycles(cycles_of(s))
    } else if has_prefix(s, "!por "@) {
        let args = words(s.skip(5));
        if args.len() == 1 && args[0] == "execinj"@ {
            c is RegisterExecInject
        } else if args.len() == 1 && args[0] == "nlpRel0"@ {
            c is RegisterNlpRel0
        } else if args.len() == 2 && args[0] == "NOP"@ {
            c matches InputCommand::RegisterNop(name) && name@ == args[1]
        } else {
            c is Nothing
        }
    } else if s == "!pse"@ {
        c is ShowEvidence
    } else if s == "!peb 0"@ {
        c == InputCommand::Babbling(false)
    } else if s == "!peb 1"@ {
        c == InputCommand::Babbling(true)
    } else if s.len() > 7 && has_prefix(s, "!.nlp2 "@) {
        c matches InputCommand::Nlp2(t) && t@ == s.skip(6)
    } else if s.len() > 6 && has_prefix(s, "!.nlp "@) {
        c matches InputCommand::Nlp(t) && t@ == s.skip(6)
    } else if s == "!dt"@ {
        c is DebugTasks
    } else if s == "!dmd"@ {
        c is DebugMemory
    } else if s == "!QQ"@ {
        c is Quit
    } else if s.len() == 0 {
        c is Nothing
    } else {
        c matches InputCommand::Narsese(t) && t@ == s
    }
}

/// does the text start with `p`?
fn starts_with(s: &str, p: &str) -> (r: bool)
    ensures
        r == has_prefix(s@, p@),
{
    let n = p.unicode_len();
    if n > s.unicode_len() {
        return false;
    }
    let start = s.substring_char(0, n);
    str_eq(start, p)
}

/// the words of a text, split at white space
fn split_whitespace(t: &str) -> (res: Vec<String>)
    ensures
        res@.len() == words(t@).len(),
        forall|i: int| 0 <= i < res@.len() ==> #[trigger] res@[i]@ == words(t@)[i],
{
    let n = t.unicode_len();
    let mut res: Vec<String> = Vec::new();
    let mut i: usize = 0;
    // start of the current word, if the last character was not white space
    let mut start: usize = 0;
    let mut inWord = false;
    assert(t@.subrange(0, 0) =~= Seq::<char>::empty());
    while i < n
        invariant
            n == t@.len(),
            i <= n,
            start <= i,
            inWord ==> i >= 1 && !white_space(t@[i - 1]) && start < i,
            !inWord ==> (i == 0 || white_space(t@[i - 1])),
            inWord ==> words(t@.subrange(0, i as int)).len() == res@.len() + 1
                && words(t@.subrange(0, i as int)).last() == t@.subrange(start as int, i as int),
            inWord ==> forall|j: int| 0 <= j < res@.len() ==> #[trigger] res@[j]@ == words(t@.subrange(0, i as int))[j],
            !inWord ==> words(t@.subrange(0, i as int)).len() == res@.len(),
            !inWord ==> forall|j: int| 0 <= j < res@.len() ==> #[trigger] res@[j]@ == words(t@.subrange(0, i as int))[j],
        decreases n - i,
    {
        let c = t.get_char(i);
        let ghost before = t@.subrange(0, i as int);
        assert(t@.subrange(0, i + 1).drop_last() =~= before);
        assert(t@.subrange(0, i + 1).last() == c);
        if crate::narsese_parser::char_whitespace_exec(c) {
            if inWord {
                let w = String::from_str(t.substring_char(start, i));
                res.push(w);
                inWord = false;
            }
        } else {
            if !inWord {
                start = i;
                inWord = true;
                assert(t@.subrange(start as int, i + 1) =~= seq![c]);
            } else {
                assert(t@.subrange(0, i + 1)[i - 1] == t@[i - 1]);
                assert(t@.subrange(start as int, i + 1) =~= t@.subrange(start as int, i as int).push(c));
            }
        }
        i += 1;
    }
    if inWord {
        let w = String::from_str(t.substring_char(start, n));
        res.push(w);
    }
    assert(t@.subrange(0, n as int) =~= t@);
    res
}

/// gives facade a new line, which can be narsese or a command: what it asks for
pub fn input(line: &String) -> (res: InputCommand)
    requires
        !bad_cycles(line@),
    ensures
        command_of(res, line@),
{
    let mut input = line.clone();
    trimNewline(&mut input);
    let s = input.as_str();
    let len = s.unicode_len();
    proof {
        reveal_strlit("//");
        reveal_strlit("!sp");
        reveal_strlit("!s");
        reveal_strlit("!por ");
        reveal_strlit("!.nlp2 ");
        reveal_strlit("!.nlp ");
    }

    if starts_with(s, "//") { // is commented line?
        InputCommand::Nothing
    } else if starts_with(s, "!sp") { // step procedural
        InputCommand::StepProcedural
    } else if starts_with(s, "!s") {
        let mut nCycles: i64 = 1;
        if len > 2 { // parse number of cycles
            match parse_i64(s.substring_char(2, len)) {
                Some(n) => {
                    nCycles = n;
                },
                None => {},
            }
        }
        InputCommand::Cycles(nCycles)
    } else if starts_with(s, "!por ") { // procedural op register --- register op, argument is type/name of op, 2nd argument is name of op
        let args = split_whitespace(s.substring_char(5, len));
        if args.len() == 1 && str_eq(args[0].as_str(), "execinj") { // it it a exec and inject NAL9 op to get registered
            InputCommand::RegisterExecInject
        } else if args.len() == 1 && str_eq(args[0].as_str(), "nlpRel0") { // NLP op to add relation to declarative knowledge
            InputCommand::RegisterNlpRel0
        } else if args.len() == 2 && str_eq(args[0].as_str(), "NOP") { // it it a NOP operator to get registered?
            InputCommand::RegisterNop(args[1].clone())
        } else {
            InputCommand::Nothing // other types aren't supported
        }
    } else if str_eq(s, "!pse") { // procedural show evidence
        InputCommand::ShowEvidence
    } else if str_eq(s, "!peb 0") { // procedural enable babbling
        InputCommand::Babbling(false)
    } else if str_eq(s, "!peb 1") {
        InputCommand::Babbling(true)
    } else if len > 7 && starts_with(s, "!.nlp2 ") {
        InputCommand::Nlp2(String::from_str(s.substring_char(6, len)))
    } else if len > 6 && starts_with(s, "!.nlp ") { // command to stuff nlp input into nlp module
        InputCommand::Nlp(String::from_str(s.substring_char(6, len)))
    } else if str_eq(s, "!dt") { // debug tasks
        InputCommand::DebugTasks
    } else if str_eq(s, "!dmd") { // debug memory declarative
        InputCommand::DebugMemory
    } else if str_eq(s, "!QQ") { // quit
        InputCommand::Quit
    } else if len == 0 {
        InputCommand::Nothing
    } else {
        InputCommand::Narsese(input.clone())
    }
}

// ---------------------------------------------------------------------------
// relations from natural language

/// the parts of a relation `<{(a * b)} --> rel>` or `<{(a * b * c)} --> rel>`
/// from the language module: the two or three terms of the product and the
/// relation's name
pub open spec fn nlp_parts(t: TermV) -> Option<(TermV, TermV, Option<TermV>, TermV)> {
    match t {
        TermV::Stmt(Copula::INH, subj, pred) => match *subj {
            TermV::List(ListKind::SetExt, set) => match set[0] {
                TermV::List(ListKind::Prod, arr) => if arr.len() == 2 {
                    Some((arr[0], arr[1], None, *pred))
                } else if arr.len() == 3 {
                    Some((arr[0], arr[1], Some(arr[2]), *pred))
                } else {
                    None
                },
                _ => None,
            },
            _ => None,
        },
        _ => None,
    }
}

/// the relation has the shape that the language module gives, as far as
/// it can be read without failing: a set that is not empty, and a third
/// term for a generic relation
pub open spec fn nlp_readable(t: TermV) -> bool {
    &&& (t matches TermV::Stmt(Copula::INH, subj, _) && (*subj matches TermV::List(ListKind::SetExt, set))) ==> nlp_set_of(t).len() >= 1
    &&& nlp_parts(t) matches Some((_, _, third, rel)) ==> (rel == TermV::Name("relGENERIC"@) ==> third is Some)
}

/// the set of such a relation
pub open spec fn nlp_set_of(t: TermV) -> Seq<TermV> {
    match t {
        TermV::Stmt(_, subj, _) => match *subj {
            TermV::List(_, set) => set,
            _ => Seq::empty(),
        },
        _ => Seq::empty(),
    }
}

/// the sentences that a relation from the language module stands for, each
/// with its punctuation (a question where the text was one); `None` where
/// the relation is not recognized
pub open spec fn nlp_sentences(t: TermV, isQuestion: bool) -> Option<Seq<(TermV, EnumPunctation)>> {
    let punct = if isQuestion { EnumPunctation::QUESTION } else { EnumPunctation::JUGEMENT };
    match nlp_parts(t) {
        Some((a, b, third, rel)) => if rel == TermV::Name("relIs"@) || rel == TermV::Name("relIs2"@) {
            Some(seq![(TermV::Stmt(Copula::INH, Box::new(a), Box::new(b)), punct)])
        } else if rel == TermV::Name("relGENERIC"@) {
            let c = third.unwrap();
            if c == TermV::Name("is"@) {
                Some(seq![(TermV::Stmt(Copula::INH, Box::new(a), Box::new(TermV::List(ListKind::SetInt, seq![b]))), punct)])
            } else {
                Some(seq![
                    (t, punct),
                    (TermV::Stmt(Copula::INH, Box::new(TermV::List(ListKind::Prod, seq![a, b])), Box::new(c)), punct),
                ])
            }
        } else if rel == TermV::Name("relIsQuery"@) {
            Some(seq![(TermV::Stmt(Copula::INH, Box::new(a), Box::new(b)), EnumPunctation::QUESTION)])
        } else {
            None
        },
        None => None,
    }
}

/// models of sentences
pub open spec fn sentences_view(v: Seq<(Term, EnumPunctation)>) -> Seq<(TermV, EnumPunctation)> {
    v.map_values(|x: (Term, EnumPunctation)| (x.0@, x.1))
}

/// the parts of a relation from the language module
fn nlpParts(t: &Term) -> (res: Option<(Term, Term, Option<Term>, Term)>)
    requires
        nlp_readable(t@),
    ensures
        match (res, nlp_parts(t@)) {
            (Some((a, b, c, r)), Some((va, vb, vc, vr))) => a@ == va && b@ == vb && r@ == vr && match (c, vc) {
                (Some(x), Some(vx)) => x@ == vx,
                (None, None) => true,
                _ => false,
            },
            (None, None) => true,
            _ => false,
        },
{
    proof {
        reveal_with_fuel(Term::view_term, 2);
    }
    match t {
        Term::Stmt(Copula::INH, subj, pred) => {
            match &**subj {
                Term::SetExt(set) => {
                    proof {
                        lemma_view_list(set@);
                    }
                    prod_parts(&*set[0], &**pred)
                },
                _ => None,
            }
        },
        _ => None,
    }
}

/// the terms of a product of two or three, with the relation's name
fn prod_parts(set0: &Term, pred: &Term) -> (res: Option<(Term, Term, Option<Term>, Term)>)
    ensures
        match (res, set0@) {
            (Some((a, b, c, r)), TermV::List(ListKind::Prod, arr)) => (arr.len() == 2 || arr.len() == 3) && a@ == arr[0] && b@ == arr[1] && r@ == pred@ && match c {
                Some(x) => arr.len() == 3 && x@ == arr[2],
                None => arr.len() == 2,
            },
            (None, TermV::List(ListKind::Prod, arr)) => arr.len() != 2 && arr.len() != 3,
            (None, _) => true,
            _ => false,
        },
{
    match set0 {
        Term::Prod(arr) => {
            proof {
                lemma_view_list(arr@);
            }
            if arr.len() == 2 {
                Some(((*arr[0]).clone(), (*arr[1]).clone(), None, pred.clone()))
            } else if arr.len() == 3 {
                Some(((*arr[0]).clone(), (*arr[1]).clone(), Some((*arr[2]).clone()), pred.clone()))
            } else {
                None
            }
        },
        _ => None,
    }
}

/// is the term the name `n`?
fn is_name(t: &Term, n: &str) -> (r: bool)
    ensures
        r == (t@ == TermV::Name(n@)),
{
    match t {
        Term::Name(name) => str_eq(name.as_str(), n),
        _ => false,
    }
}

/// translates a relation from the language module into the sentences it
/// stands for; `None` where it is not recognized
pub fn nlpToSentences(t: &Term, isQuestion: bool) -> (res: Option<Vec<(Term, EnumPunctation)>>)
    requires
        nlp_readable(t@),
    ensures
        match (res, nlp_sentences(t@, isQuestion)) {
            (Some(v), Some(vs)) => sentences_view(v@) == vs,
            (None, None) => true,
            _ => false,
        },
{
    proof {
        reveal_with_fuel(Term::view_term, 2);
    }
    let punct = if isQuestion { EnumPunctation::QUESTION } else { EnumPunctation::JUGEMENT };
    match nlpParts(t) {
        Some((prod0, prod1, prod2, rel)) => {
            let ghost va = prod0@;
            let ghost vb = prod1@;
            if is_name(&rel, "relIs") || is_name(&rel, "relIs2") {
                let v = vec![(Term::Stmt(Copula::INH, Box::new(prod0), Box::new(prod1)), punct)];
                assert(sentences_view(v@) =~= seq![(TermV::Stmt(Copula::INH, Box::new(va), Box::new(vb)), punct)]);
                Some(v)
            } else if is_name(&rel, "relGENERIC") {
                let c = match prod2 {
                    Some(c) => c,
                    None => {
                        proof {
                            assert(false);
                        }
                        return None;
                    },
                };
                if is_name(&c, "is") {
                    let set = vec![Box::new(prod1)];
                    proof {
                        lemma_view_list_ext(set@, seq![vb]);
                    }
                    let v = vec![(Term::Stmt(Copula::INH, Box::new(prod0), Box::new(Term::SetInt(set))), punct)];
                    assert(sentences_view(v@) =~= seq![(TermV::Stmt(Copula::INH, Box::new(va), Box::new(TermV::List(ListKind::SetInt, seq![vb]))), punct)]);
                    Some(v)
                } else {
                    let prod = vec![Box::new(prod0), Box::new(prod1)];
                    proof {
                        lemma_view_list_ext(prod@, seq![va, vb]);
                    }
                    let ghost vc = c@;
                    let v = vec![(t.clone(), punct), (Term::Stmt(Copula::INH, Box::new(Term::Prod(prod)), Box::new(c)), punct)];
                    assert(sentences_view(v@) =~= seq![
                        (t@, punct),
                        (TermV::Stmt(Copula::INH, Box::new(TermV::List(ListKind::Prod, seq![va, vb])), Box::new(vc)), punct),
                    ]);
                    Some(v)
                }
            } else if is_name(&rel, "relIsQuery") {
                let v = vec![(Term::Stmt(Copula::INH, Box::new(prod0), Box::new(prod1)), EnumPunctation::QUESTION)];
                assert(sentences_view(v@) =~= seq![(TermV::Stmt(Copula::INH, Box::new(va), Box::new(vb)), EnumPunctation::QUESTION)]);
                Some(v)
            } else {
                None
            }
        },
        None => None,
    }
}

} // verus!

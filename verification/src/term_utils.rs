//! Utilities for terms and manipulation of terms: operator calls.

use vstd::prelude::*;
use crate::term::{Term, TermV, Copula, ListKind, terms_view, box_all, unbox_all};

verus! {

/// arguments and name of an operator call `<{(arg0 * arg1 * ...)} --> ^opname>`,
/// or `None` when the term has another shape
pub open spec fn decode_op(t: TermV) -> Option<(Seq<TermV>, Seq<char>)> {
    match t {
        TermV::Stmt(Copula::INH, subj, pred) => match (*subj, *pred) {
            (TermV::List(ListKind::SetExt, set), TermV::Name(name)) => {
                if set.len() == 1 {
                    match set[0] {
                        TermV::List(ListKind::Prod, args) => if args.len() >= 1 {
                            Some((args, name))
                        } else {
                            None
                        },
                        _ => None,
                    }
                } else {
                    None
                }
            },
            _ => None,
        },
        _ => None,
    }
}

/// the operator call `<{(arg0 * arg1 * ...)} --> name>`
pub open spec fn encode_op(args: Seq<TermV>, name: Seq<char>) -> TermV {
    TermV::Stmt(
        Copula::INH,
        Box::new(TermV::List(ListKind::SetExt, seq![TermV::List(ListKind::Prod, args)])),
        Box::new(TermV::Name(name)),
    )
}

/// decodes a operator into the arguments and name
/// returns None if the term can't be decoded
/// expects term to be <{(arg0 * arg1 * ...)} --> ^opname>
pub fn decodeOp(term: &Term) -> (res: Option<(Vec<Term>, String)>)
    ensures
        res is Some <==> decode_op(term@) is Some,
        res matches Some((args, name)) ==> decode_op(term@) == Some((terms_view(args@), name@)),
{
    match term {
        Term::Stmt(Copula::INH, subj, pred) => {
            match &**pred {
                Term::Name(predName) => {
                    match &**subj {
                        Term::SetExt(subj2) if subj2.len() == 1 => {
                            proof {
                                crate::term::lemma_view_list(subj2@);
                            }
                            match &*subj2[0] {
                                Term::Prod(args) if args.len() >= 1 => {
                                    proof {
                                        crate::term::lemma_view_list(args@);
                                        assert(Term::view_list(subj2@)[0] == (*subj2[0])@);
                                        assert((**subj)@ == TermV::List(ListKind::SetExt, Term::view_list(subj2@)));
                                        assert((**pred)@ == TermV::Name(predName@));
                                    }
                                    let argsOut = unbox_all(args);
                                    let nameOut = predName.clone();
                                    return Some((argsOut, nameOut));
                                },
                                _ => {
                                    proof {
                                        crate::term::lemma_view_list(subj2@);
                                        if let Term::Prod(args) = &*subj2[0] {
                                            crate::term::lemma_view_list(args@);
                                        }
                                    }
                                    return None;
                                },
                            }
                        },
                        _ => {
                            proof {
                                if let Term::SetExt(subj2) = &**subj {
                                    crate::term::lemma_view_list(subj2@);
                                }
                            }
                            return None;
                        },
                    }
                },
                _ => {
                    return None;
                },
            }
        },
        _ => {
            return None;
        },
    }
}

/// encode op, used to get called from external code
pub fn encodeOp(args: &Vec<Term>, name: &String) -> (res: Term)
    ensures
        res@ == encode_op(terms_view(args@), name@),
{
    let argProd = Term::Prod(box_all(args));
    let set = vec![Box::new(argProd)];
    proof {
        crate::term::lemma_view_list_ext(set@, seq![TermV::List(ListKind::Prod, terms_view(args@))]);
    }
    let setTerm = Term::SetExt(set);
    let nameTerm = Term::Name(name.clone());
    assert(setTerm@ == TermV::List(ListKind::SetExt, seq![TermV::List(ListKind::Prod, terms_view(args@))]));
    assert(nameTerm@ == TermV::Name(name@));
    Term::Stmt(Copula::INH, Box::new(setTerm), Box::new(nameTerm))
}

/// Decoding an encoded operator call gives back its arguments and name, for a
/// call with at least one argument.
pub proof fn law_decode_encode_op(args: Seq<TermV>, name: Seq<char>)
    requires
        args.len() >= 1,
    ensures
        decode_op(encode_op(args, name)) == Some((args, name)),
{
}

/// An operator call that decodes is the encoding of what it decodes to.
pub proof fn law_encode_decode_op(t: TermV)
    requires
        decode_op(t) is Some,
    ensures
        encode_op(decode_op(t).unwrap().0, decode_op(t).unwrap().1) == t,
{
    match t {
        TermV::Stmt(_, subj, pred) => {
            match *subj {
                TermV::List(_, set) => {
                    assert(set =~= seq![set[0]]);
                },
                _ => {},
            }
        },
        _ => {},
    }
}

} // verus!

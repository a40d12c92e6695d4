//! Library of standard ops: their names, whether motor babbling may call
//! them, and the decisions they take on their arguments.

use vstd::prelude::*;
use crate::term::{Term, TermV, Copula, ListKind, checkEqTerm, lemma_view_list, lemma_view_list_ext};

verus! {

/// op that does nothing, for the pong environment
pub struct OpNop {
    /// name of this op
    pub name: String,
}

impl OpNop {
    /// the name of the op
    pub fn retName(&self) -> (res: String)
        ensures
            res@ == self.name@,
    {
        self.name.clone()
    }

    /// can the op be called with motor babbling?
    pub fn isBabbleable(&self) -> (res: bool)
        ensures
            res,
    {
        true
    }
}

/// NAL9 operator to execute a sequence of operations and inject an event as
/// input after doing so
///
/// ex:
/// `<(a,<{({SELF}*(<{({SELF}*dummy0)} --> ^nop>,<{({SELF}*dummy0)} --> ^nop>)*b)} --> ^nal9_exeAndInject>) =/> g>..`
pub struct Op_nal9__exec_and_inject {}

/// what the op does with its arguments: where there are three and the
/// second is a sequence, the ops of that sequence are executed in order and
/// then the third argument is injected as an event; otherwise nothing
pub open spec fn spec_exec_and_inject_plan(args: Seq<TermV>) -> Option<(Seq<TermV>, TermV)> {
    if args.len() != 3 {
        None
    } else {
        match args[1] {
            TermV::List(ListKind::Sequence, ops) => Some((ops, args[2])),
            _ => None,
        }
    }
}

impl Op_nal9__exec_and_inject {
    /// the name of the op
    pub fn retName(&self) -> (res: String)
        ensures
            res@ == "^nal9_exeAndInject"@,
    {
        String::from_str("^nal9_exeAndInject")
    }

    /// can the op be called with motor babbling? No: it makes no sense
    pub fn isBabbleable(&self) -> (res: bool)
        ensures
            !res,
    {
        false
    }

    /// the ops to execute, in order, and the event to inject afterwards;
    /// `None` where the arguments are wrong (a soft error)
    pub fn plan(&self, args: &Vec<Term>) -> (res: Option<(Vec<Term>, Term)>)
        ensures
            match (res, spec_exec_and_inject_plan(args@.map_values(|t: Term| t@))) {
                (Some((ops, ev)), Some((vops, vev))) => Term::view_list(ops@.map_values(|t: Term| Box::new(t))) == vops && ev@ == vev,
                (None, None) => true,
                _ => false,
            },
    {
        proof {
            reveal_with_fuel(Term::view_term, 2);
        }
        if args.len() != 3 {
            return None;
        }
        assert(args@.map_values(|t: Term| t@)[1] == args@[1]@);
        assert(args@.map_values(|t: Term| t@)[2] == args@[2]@);
        match &args[1] {
            Term::Sequence(seq) => {
                let mut ops: Vec<Term> = Vec::new();
                let mut i: usize = 0;
                proof {
                    lemma_view_list(seq@);
                }
                while i < seq.len()
                    invariant
                        i <= seq.len(),
                        ops.len() == i,
                        Term::view_list(seq@).len() == seq.len(),
                        forall|j: int| 0 <= j < seq.len() ==> Term::view_list(seq@)[j] == seq@[j].view_term(),
                        forall|j: int| 0 <= j < i ==> ops@[j]@ == seq@[j].view_term(),
                    decreases seq.len() - i,
                {
                    ops.push((*seq[i]).clone());
                    i += 1;
                }
                proof {
                    let boxed = ops@.map_values(|t: Term| Box::new(t));
                    lemma_view_list_ext(boxed, Term::view_list(seq@));
                }
                Some((ops, args[2].clone()))
            },
            _ => None,
        }
    }
}

/// op that adds a relation found by natural language processing
pub struct Op__nlp_rel_0 {}

/// the relation is `<(X * Y) --> R>`
pub open spec fn is_inh_prod(rel: TermV) -> bool {
    match rel {
        TermV::Stmt(Copula::INH, subj, _) => match *subj {
            TermV::List(ListKind::Prod, _) => true,
            _ => false,
        },
        _ => false,
    }
}

/// the product of such a relation
pub open spec fn inh_prod_of(rel: TermV) -> Seq<TermV> {
    match rel {
        TermV::Stmt(Copula::INH, subj, _) => match *subj {
            TermV::List(ListKind::Prod, arr) => arr,
            _ => Seq::empty(),
        },
        _ => Seq::empty(),
    }
}

/// an "and" sequence `(A, and, B)` becomes `(A & B)`; any other term stays
pub open spec fn rewrite_and(t: TermV) -> TermV {
    match t {
        TermV::List(ListKind::Sequence, s) => if s.len() == 3 && s[1] == TermV::Name("and"@) {
            TermV::List(ListKind::ExtInt, seq![s[0], s[2]])
        } else {
            t
        },
        _ => t,
    }
}

/// the relation with the "and" sequence in the second place of its product
/// rewritten to an extensional intersection; the product keeps its first
/// two terms; a relation of another form stays as it is
pub open spec fn spec_rewrite_rel(rel: TermV) -> TermV {
    match rel {
        TermV::Stmt(Copula::INH, subj, pred) => match *subj {
            TermV::List(ListKind::Prod, arr) => TermV::Stmt(
                Copula::INH,
                Box::new(TermV::List(ListKind::Prod, seq![arr[0], rewrite_and(arr[1])])),
                pred,
            ),
            _ => rel,
        },
        _ => rel,
    }
}

impl Op__nlp_rel_0 {
    /// the name of the op
    pub fn retName(&self) -> (res: String)
        ensures
            res@ == "^nlpRel0"@,
    {
        String::from_str("^nlpRel0")
    }

    /// can the op be called with motor babbling? No: it is not useful to
    /// babble it
    pub fn isBabbleable(&self) -> (res: bool)
        ensures
            !res,
    {
        false
    }

    /// the relation given as the second argument, rewritten: "and"
    /// sequences become extensional intersections
    pub fn rewriteRel(&self, rel: &Term) -> (res: Term)
        requires
            is_inh_prod(rel@) ==> inh_prod_of(rel@).len() >= 2,
        ensures
            res@ == spec_rewrite_rel(rel@),
    {
        proof {
            reveal_with_fuel(Term::view_term, 2);
        }
        match rel {
            Term::Stmt(Copula::INH, subj, pred) => {
                match &**subj {
                    Term::Prod(arr) => {
                        proof {
                            lemma_view_list(arr@);
                        }
                        let rewrittenRight: Term = rewrite_and_term(&*arr[1]);
                        let first = (*arr[0]).clone();
                        let ghost rv = rewrittenRight@;
                        let prod = vec![Box::new(first), Box::new(rewrittenRight)];
                        proof {
                            lemma_view_list_ext(prod@, seq![arr@[0].view_term(), rv]);
                        }
                        Term::Stmt(Copula::INH, Box::new(Term::Prod(prod)), Box::new((**pred).clone()))
                    },
                    _ => rel.clone(),
                }
            },
            _ => rel.clone(),
        }
    }
}

/// an "and" sequence `(A, and, B)` rewritten to `(A & B)`
fn rewrite_and_term(right: &Term) -> (res: Term)
    ensures
        res@ == rewrite_and(right@),
{
    proof {
        reveal_with_fuel(Term::view_term, 2);
    }
    match right {
        Term::Sequence(s) => {
            proof {
                lemma_view_list(s@);
            }
            let and_name = Term::Name(String::from_str("and"));
            if s.len() == 3 && checkEqTerm(&s[1], &and_name) {
                let parts = vec![Box::new((*s[0]).clone()), Box::new((*s[2]).clone())];
                proof {
                    lemma_view_list_ext(parts@, seq![s@[0].view_term(), s@[2].view_term()]);
                }
                Term::ExtInt(parts)
            } else {
                right.clone()
            }
        },
        _ => right.clone(),
    }
}

} // verus!

# nar20_1

The core of a NARS reasoner (Non-Axiomatic Reasoning System), verified with Verus.

`src/` holds the verified library:

- `term`, `term_api`, `term_utils`: Narsese terms, their mathematical model
  (`TermV`), equality, complexity, subterms, printing, builders and the
  encoding of operator calls.
- `narsese_parser`: the Narsese grammar as functions on text, with the
  truth value and event mark of a sentence.
- `nar_unify`: unification of terms with variables, and substitution.
- `nar_stamp`: stamps of evidence, their overlap and merge.
- `nar_inference`: the declarative inference rules; each conclusion names
  the truth function that gives its truth value.
- `nar_inf_procedural`, `nar_goal_system`, `nar_proc`, `nars`: helpers of the
  procedural reasoner (goal deduction and detachment, variable introduction,
  implication building, interval tables, evidence perceived from the trace,
  anticipations, the matching of goals, states, events and evidence).
- `nar_perception`: which perceived events are ops, and the terms inside a term.
- `nar_input_facade`: what a line of input asks for.
- `nar_module_nlp`: the relations by which the words of a sentence are given
  to the reasoner.
- `map2d`, `proc_tic_tac_toe`, `env_pong3`, `mod_nlp_a`, `op_lib`, ...:
  environments, operators and small utilities. The pong environment draws
  its random numbers with the `rand` crate.

The laws of the library are the public proof functions named `law_*`.

`app/main.rs` is the interactive program: it reads lines, computes truth
values (floating point) and runs the inference cycle: a primary judgement,
taken in turn, is derived from alone and with the judgements filed under its
subterms (`populateTaskByTermLookup`, `select_secondaries`,
`derive_for_message`), and questions are answered by unification.

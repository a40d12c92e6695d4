//! Core of a NARS reasoner: terms, stamps, unification and the Narsese grammar.
#![allow(non_snake_case)]
#![allow(non_camel_case_types)]

pub mod term;
pub mod text;
pub mod term_api;
pub mod term_utils;
pub mod nar_unify;
pub mod nar_sentence;
pub mod narsese_parser;
pub mod nar_stamp;
pub mod nar_proc;
pub mod nars;
pub mod utils;
pub mod env_pong3;
pub mod proc_tic_tac_toe;
pub mod mod_nlp_a;
pub mod nar_inference;
pub mod nar_input_facade;
pub mod map2d;
pub mod exp_stopwatch;
pub mod op_lib;
pub mod proc_chaos_entry;
pub mod nar_goal_system;
pub mod nar_inf_procedural;
pub mod nar_module_nlp;
pub mod nar_perception;

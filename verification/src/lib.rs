//! Code-generation backend that turns a deterministic finite automaton into
//! the text of a branch-free evaluation circuit: an ordered chain of guarded
//! state-transition rules plus a fixed-length matching loop, optionally
//! extended with capture-buffer tracking for substring extraction.

pub mod dfa;
pub mod ranges;
pub mod rules;
pub mod capture;
pub mod machine;
pub mod text;
pub mod emit;

//! A small regular-expression engine: patterns of literals, `.`, a final `$`
//! and the postfix quantifiers `+` and `*` compile to a table-driven automaton
//! that matches in one forward pass, without backtracking.
pub mod compiler;
pub mod fsm;
pub mod laws;
pub mod matcher;
pub mod regex;

pub use compiler::{CompileFault, FaultKind};
pub use fsm::{FsmAction, FsmColumn, Move};
pub use regex::Regex;

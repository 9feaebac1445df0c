//! Core of a small line-oriented command interpreter.
//!
//! The library covers the parts of the interpreter with real invariants:
//! tokenizing an input line under shell-style quoting rules, looking a
//! command name up in the sorted builtin table, resolving it to an
//! executable by a depth-first search of the search-path directories,
//! and splitting an argument list at a redirection operator.  The
//! surrounding read-eval loop performs the actual I/O and feeds these
//! functions plain values.

pub mod builtins;
pub mod dispatch;
pub mod parser;
pub mod redirect;
pub mod resolver;

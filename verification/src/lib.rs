//! Core engine of an interactive shell for a competitive-programming
//! workflow: a command grammar with quoting and escaping, a builder that
//! turns token lists into closed command values, session state with
//! default/override resolution and a problem cache, a dispatcher that
//! decides which outside action each command requires, and the judging
//! rules for timed runs and sample tests.
//!
//! Everything here is pure decision logic: reading lines, spawning
//! processes and driving the remote judge happen outside, against the
//! action values this crate hands out.

pub mod command;
pub mod data;
pub mod runner;
pub mod session;
pub mod status;
pub mod strutil;
pub mod subst;
pub mod tokenize;

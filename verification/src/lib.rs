//! A command-expansion execution engine.
//!
//! The engine threads a single, exclusively owned state value through a
//! last-in-first-out queue of commands. Executing a command yields a new
//! state and an ordered list of follow-up commands; follow-ups are pushed
//! in reverse so they run, depth first, before any earlier sibling. Every
//! command is round-tripped through its token serialization before it
//! runs, and the first failure of any kind aborts the whole run.
//!
//! The `engine` module holds the loop and its contracts, `script` a
//! concrete command type over which the serialization round trip is
//! proved, and `workspace` the configuration provider that calling code
//! threads into command implementations.

pub mod engine;
pub mod script;
pub mod workspace;

//! Execution core of a vulnerability scanner.
//!
//! - `scheduling`: orders the VTs (vulnerability tests) of a scan into
//!   stages of mutually independent VTs, handed out one stage at a time.
//! - `preconditions`: decides from knowledge-base lookups whether a VT may run.
//! - `outcome`: the outcome of running one VT against one host.
//! - `runner`: the multi-host state machine that replays the stage plan for
//!   every target host.
//! - `token`, `operation`, `parser`: the token and statement types of the
//!   scripting language, and the errors its parser reports.

pub mod token;
pub mod operation;
pub mod parser;
pub mod scheduling;
pub mod preconditions;
pub mod outcome;
pub mod runner;

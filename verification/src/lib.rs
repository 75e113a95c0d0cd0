//! Query-execution core of a document search engine: a tri-state algebra over
//! sorted posting lists, a planner that flattens a query tree into postfix
//! programs, and the stack machine that runs them.

pub mod merge;
pub mod posting;
pub mod codec;
pub mod query;
pub mod program;
pub mod planner;
pub mod driver;
pub mod semantics;

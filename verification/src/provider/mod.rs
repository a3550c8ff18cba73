//! The analysis provider: the conditions it evaluates, the state it keeps
//! across requests, and the answers it gives.

pub mod dependency_lines;
pub mod java;

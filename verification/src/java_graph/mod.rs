//! The symbol model of Java sources: extraction from syntax trees, type
//! resolution across files, and queries.

pub mod ast_explorer;
pub mod language_config;
pub mod model;
pub mod extract;
pub mod type_resolver;
pub mod query;

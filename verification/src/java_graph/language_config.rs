//! Parsing Java source with the tree-sitter Java grammar.

use vstd::prelude::*;

use crate::syntax::{java_tree, texts_match, tree_wf, JavaParser, SyntaxTree};
use crate::text::own;

verus! {

/// A parser set up with the Java grammar (the error, were tree-sitter to
/// refuse the grammar, would say so; it does not refuse it).
pub fn create_parser() -> (r: Result<JavaParser, String>)
    ensures
        r matches Ok(p) && p.has_java(),
{
    match JavaParser::new_java() {
        Some(p) => Ok(p),
        None => Err(own("Failed to set Java language for parser")),
    }
}

/// Parses Java source text into the syntax tree that tree-sitter's Java
/// grammar gives for it: a well-formed tree whose node texts are the
/// source's.
pub fn parse_source(source: &str) -> (r: Result<SyntaxTree, String>)
    ensures
        r matches Ok(t) && t@ == java_tree(source@) && tree_wf(t@) && texts_match(t@, source@),
{
    let mut parser = create_parser()?;
    match parser.parse(source) {
        Some(t) => Ok(t),
        None => Err(own("Failed to parse Java source")),
    }
}

} // verus!

//! Static analysis support for Java projects: build-file dependency
//! extraction, a symbol model of Java sources and a query engine over it.

pub mod buildtool;
pub mod java_graph;
pub mod provider;
pub mod strmap;
pub mod syntax;
pub mod text;
pub mod xml;

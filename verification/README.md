# java_analyzer_provider

A Java static-analysis provider for the Konveyor migration platform, written
in Verus. It parses Java sources with tree-sitter, extracts their symbols,
tracks inheritance and interface implementation, answers "referenced"
queries over its location types (classes, methods, fields, calls,
annotations, imports and more), and evaluates "dependency" conditions
against Maven and Gradle builds with semantic version ranges.

## Layout

- `src/` — the verified library.
  - `syntax.rs` — the Java syntax tree: tree-sitter's tree copied into an
    arena of plain nodes; the copy is proved to be the tree that the grammar
    gives for the source.
  - `text.rs`, `strmap.rs`, `xml.rs` — strings, an insertion-ordered string
    map, and pull reading of XML through `quick_xml`.
  - `java_graph/` — symbol extraction (`extract.rs`), the type resolver and
    its inheritance laws (`type_resolver.rs`), the pattern language and the
    query engine (`query.rs`), and an outline printer (`ast_explorer.rs`).
  - `buildtool/` — build-tool detection and the Maven and Gradle parsers and
    resolvers.
  - `provider/` — the provider's state machine: initialisation, evaluation
    of conditions, dependency answers with line numbers, code snippets.
- `tests/` — tests of the library.
- `app/` — the command-line front end: file-system walking, running `mvn`
  and `gradle`, reading conditions from YAML, printing results.

Outside crates are reached from `src/` only through small trusted wrappers,
each documented with what its contract claims of the crate it calls.

The stack-graph layer (building GitHub stack graphs from TSG rules with
`tree_sitter_stack_graphs`) is not part of this crate: nothing in the
analysis reads the graph, and queries run on the type resolver's symbols.

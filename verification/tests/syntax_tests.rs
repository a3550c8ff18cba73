use java_analyzer_provider::java_graph::ast_explorer::{find_nodes_by_kind, node_text, print_ast};
use java_analyzer_provider::java_graph::language_config::{create_parser, parse_source};

#[test]
fn test_find_nodes() {
    let source = r#"
            package com.test;

            public class Test {
                private int field;
            }
        "#;

    let tree = parse_source(source).unwrap();

    let packages = find_nodes_by_kind(&tree, "package_declaration");
    assert_eq!(packages.len(), 1);
    let classes = find_nodes_by_kind(&tree, "class_declaration");
    assert_eq!(classes.len(), 1);
    let fields = find_nodes_by_kind(&tree, "field_declaration");
    assert_eq!(fields.len(), 1);
}

#[test]
fn test_node_text() {
    let source = r#"
            package com.test;

            public class Test {
            }
        "#;

    let tree = parse_source(source).unwrap();
    let packages = find_nodes_by_kind(&tree, "package_declaration");

    assert_eq!(packages.len(), 1);
    let package_text = node_text(&tree, packages[0], source);
    assert!(package_text.contains("package com.test"));
}

#[test]
fn test_parse_simple_class() {
    let source = r#"
            public class HelloWorld {
                public static void main(String[] args) {
                    System.out.println("Hello, World!");
                }
            }
        "#;

    let tree = parse_source(source);
    assert!(tree.is_ok());

    let tree = tree.unwrap();
    assert_eq!(tree.kind(0), "program");
    assert!(tree.children(0).len() > 0);
}

#[test]
fn test_parse_with_package() {
    let source = r#"
            package com.example.app;

            public class MyClass {
                private int value;
            }
        "#;

    assert!(parse_source(source).is_ok());
}

#[test]
fn test_parse_with_imports() {
    let source = r#"
            package com.example;

            import java.util.List;
            import java.util.ArrayList;

            public class Example {
            }
        "#;

    assert!(parse_source(source).is_ok());
}

#[test]
fn tree_structure_is_consistent() {
    let source = "class A { int x; void f() { g(); } }";
    let tree = parse_source(source).unwrap();
    assert!(tree.parent(0).is_none());
    for i in 1..tree.len() {
        let p = tree.parent(i).unwrap();
        assert!(p < i);
        assert!(tree.children(p).contains(&i));
    }
    let calls = find_nodes_by_kind(&tree, "method_invocation");
    assert_eq!(calls.len(), 1);
    assert_eq!(tree.text(calls[0]), "g()");
    assert_eq!(node_text(&tree, calls[0], source), "g()");
}

#[test]
fn outline_of_a_small_tree() {
    let source = "class A {}";
    let tree = parse_source(source).unwrap();
    let full = print_ast(&tree, source, None);
    let lines: Vec<&str> = full.lines().collect();
    assert_eq!(lines[0], "program (0:0 - 0:10) [class A {}]");
    assert_eq!(lines[1], "  class_declaration (0:0 - 0:10) [class A {}]");
    assert!(lines.iter().any(|l| l.starts_with("    identifier (0:6 - 0:7) [A]")));
    let top = print_ast(&tree, source, Some(0));
    assert_eq!(top, "program (0:0 - 0:10) [class A {}]\n");

    let multi = "class B {\n}\n";
    let tree = parse_source(multi).unwrap();
    let out = print_ast(&tree, multi, Some(1));
    assert!(out.starts_with("program (0:0 - 2:0)\n"));
    assert!(out.contains("  class_declaration (0:0 - 1:1)\n"));
}

#[test]
fn test_parse_source_directly() {
    let source = r#"
        package com.test;

        import java.util.Map;

        public class TestClass extends BaseClass implements Runnable {
            private int field;

            @Override
            public void run() {
                System.out.println("Running");
            }

            public int getField() {
                return field;
            }
        }
    "#;

    let result = parse_source(source);
    assert!(result.is_ok());
    let tree = result.unwrap();

    let found_import = !find_nodes_by_kind(&tree, "import_declaration").is_empty();
    let found_annotation = !find_nodes_by_kind(&tree, "marker_annotation").is_empty();

    assert!(found_import, "Import declaration not found");
    assert!(found_annotation, "Annotation not found");
}

#[test]
fn test_parser_creation() {
    let parser = create_parser();
    assert!(parser.is_ok());
}

#[test]
fn parser_parses_two_sources_in_turn() {
    let mut parser = create_parser().unwrap();
    let first = parser.parse("class A {}").unwrap();
    let second = parser.parse("interface B {}").unwrap();
    assert_eq!(first.kind(0), "program");
    assert_eq!(second.kind(0), "program");
    let classes = first.find_nodes_by_kind("class_declaration");
    let interfaces = second.find_nodes_by_kind("interface_declaration");
    assert_eq!(classes.len(), 1);
    assert_eq!(interfaces.len(), 1);
    assert_eq!(first.text(classes[0]), "class A {}");
    assert_eq!(second.text(interfaces[0]), "interface B {}");
}

#[test]
fn find_node_types() {
    let source = r#"
        package com.example.simple;

        import java.util.List;

        public class Simple {
            private int value;

            public Simple(int value) {
                this.value = value;
            }

            public int getValue() {
                return value;
            }
        }
    "#;

    let tree = parse_source(source).unwrap();
    let mut node_types = std::collections::BTreeSet::new();
    for i in 0..tree.len() {
        node_types.insert(tree.kind(i).to_string());
    }

    println!("\nAll node types found in the Java AST:");
    for node_type in &node_types {
        println!("  - {}", node_type);
    }
    assert!(node_types.contains("program"));
    assert!(node_types.contains("constructor_declaration"));
    assert!(node_types.contains("method_declaration"));
}

use java_analyzer_provider::java_graph::model::{ClassInfo, FileInfo, SourcePosition};
use java_analyzer_provider::java_graph::type_resolver::TypeResolver;
use java_analyzer_provider::strmap::StrMap;

/// The fixtures the checks below analyse, as their assertions describe them.
const SIMPLE: &str = r#"
package com.example.simple;

import java.util.List;
import java.util.ArrayList;

public class Simple {
    private int value;
    private String name;

    public Simple(int value, String name) {
        this.value = value;
        this.name = name;
    }

    public int getValue() {
        return value;
    }

    public void setValue(int value) {
        this.value = value;
    }

    public List<String> getItems() {
        return new ArrayList<>();
    }
}
"#;

const INHERITANCE_EXAMPLE: &str = r#"
package com.example.inheritance;

import java.io.Serializable;

public class InheritanceExample extends BaseClass implements Runnable, Serializable {
    public void run() {
    }
}

class BaseClass {
}
"#;

#[test]
fn test_analyze_all_fixtures() {
    let fixtures = [
        ("tests/fixtures/Simple.java", SIMPLE),
        ("tests/fixtures/InheritanceExample.java", INHERITANCE_EXAMPLE),
    ];
    let mut resolver = TypeResolver::new();
    for (path, source) in &fixtures {
        let result = resolver.analyze_file(path, source);
        assert!(result.is_ok(), "Failed to analyze {}: {:?}", path, result.err());
    }
    assert!(resolver.file_infos.len() > 0);
}

#[test]
fn type_resolver_integration_test_test_global_index_build() {
    let mut resolver = TypeResolver::new();
    resolver.analyze_file("tests/fixtures/Simple.java", SIMPLE).unwrap();
    resolver.analyze_file("tests/fixtures/InheritanceExample.java", INHERITANCE_EXAMPLE).unwrap();
    resolver.build_global_index();

    if resolver.file_infos.len() > 0 {
        assert!(
            resolver.global_type_index.contains_key("Simple")
                || resolver.global_type_index.contains_key("InheritanceExample")
        );
    }
}

#[test]
fn test_wildcard_resolution_with_global_index() {
    let source = r#"
        package com.test;

        import java.util.*;

        public class WildcardTest {
            private List items;
        }
    "#;

    let mut resolver = TypeResolver::new();
    resolver.analyze_file("tests/fixtures/Simple.java", SIMPLE).unwrap();
    let result = resolver.analyze_file("WildcardTest.java", source);
    assert!(result.is_ok());

    resolver.build_global_index();
    resolver.global_type_index.append("List".to_string(), "java.util.List".to_string());

    let resolved = resolver.resolve_type_name("List", "WildcardTest.java");
    assert_eq!(resolved, Some("java.util.List".to_string()));
}

fn one_class_file(path: &str, package: &str, simple: &str, fqdn: &str, is_interface: bool) -> FileInfo {
    let mut classes = StrMap::new();
    classes.insert(
        simple.to_string(),
        ClassInfo {
            simple_name: simple.to_string(),
            fqdn: fqdn.to_string(),
            extends: None,
            implements: vec![],
            methods: vec![],
            fields: vec![],
            annotations: vec![],
            is_interface,
            is_enum: false,
            position: SourcePosition::unknown(),
        },
    );
    FileInfo {
        file_path: path.to_string(),
        package_name: Some(package.to_string()),
        explicit_imports: StrMap::new(),
        wildcard_imports: vec![],
        classes,
        method_calls: vec![],
        constructor_calls: vec![],
        annotations: vec![],
        variables: vec![],
    }
}

#[test]
fn test_multiple_classes_same_simple_name() {
    let mut resolver = TypeResolver::new();
    resolver
        .file_infos
        .insert("test1.java".to_string(), one_class_file("test1.java", "com.custom", "List", "com.custom.List", false));
    resolver
        .file_infos
        .insert("test2.java".to_string(), one_class_file("test2.java", "java.util", "List", "java.util.List", true));

    resolver.build_global_index();

    let list_fqdns = resolver.global_type_index.get("List").unwrap();
    assert_eq!(list_fqdns.len(), 2);
    assert!(list_fqdns.contains(&"com.custom.List".to_string()));
    assert!(list_fqdns.contains(&"java.util.List".to_string()));
}

#[test]
fn test_constructor_extraction() {
    let path = "tests/fixtures/Simple.java";
    let mut resolver = TypeResolver::new();
    resolver.analyze_file(path, SIMPLE).unwrap();

    let file_info = resolver.file_infos.get(path).unwrap();
    let class_info = file_info.classes.get("Simple").unwrap();
    let constructor = class_info.methods.iter().find(|m| m.name == "Simple");
    assert!(constructor.is_some());

    let ctor = constructor.unwrap();
    assert_eq!(ctor.parameters.len(), 2);
    assert_eq!(ctor.return_type, "");
}

#[test]
fn test_interface_detection() {
    let source = r#"
        package com.test;

        public interface MyInterface {
            void doSomething();
        }
    "#;

    let mut resolver = TypeResolver::new();
    resolver.analyze_file("MyInterface.java", source).unwrap();

    let file_info = resolver.file_infos.get("MyInterface.java").unwrap();
    let interface_info = file_info.classes.get("MyInterface").unwrap();
    assert!(interface_info.is_interface);
    assert!(!interface_info.is_enum);
}

#[test]
fn test_enum_detection() {
    let source = r#"
        package com.test;

        public enum Status {
            ACTIVE,
            INACTIVE,
            PENDING
        }
    "#;

    let mut resolver = TypeResolver::new();
    resolver.analyze_file("Status.java", source).unwrap();

    let file_info = resolver.file_infos.get("Status.java").unwrap();
    let enum_info = file_info.classes.get("Status").unwrap();
    assert!(!enum_info.is_interface);
    assert!(enum_info.is_enum);
}

use java_analyzer_provider::java_graph::ast_explorer::find_nodes_by_kind;
use java_analyzer_provider::java_graph::extract::{
    extract_annotations_from_node, extract_classes, extract_imports, extract_package,
};
use java_analyzer_provider::java_graph::language_config::parse_source;
use java_analyzer_provider::java_graph::model::{ClassInfo, FileInfo, SourcePosition};
use java_analyzer_provider::java_graph::type_resolver::{is_java_lang_type, is_primitive, TypeResolver};
use java_analyzer_provider::strmap::StrMap;

/// The fixture sources the checks below read, as their assertions describe
/// them.
const SIMPLE_JAVA: &str = r#"
package com.example.simple;

import java.util.List;
import java.util.ArrayList;

public class Simple {
    private int value;
    private String name;

    public int getValue() {
        return value;
    }

    public void setValue(int value) {
        this.value = value;
    }

    public String getName() {
        return name;
    }

    public void setName(String name) {
        this.name = name;
    }

    public List<String> getItems() {
        List<String> items = new ArrayList<>();
        items.add(name);
        return items;
    }
}
"#;

const INHERITANCE_JAVA: &str = r#"
package com.example.inheritance;

import java.io.Serializable;

public class InheritanceExample extends BaseClass implements Runnable, Serializable {
    public void run() {
    }
}

class BaseClass {
}
"#;

fn read_fixture(path: &str) -> Option<String> {
    if path.ends_with("Simple.java") {
        Some(SIMPLE_JAVA.to_string())
    } else if path.ends_with("InheritanceExample.java") {
        Some(INHERITANCE_JAVA.to_string())
    } else {
        println!("Skipping test - fixture not found");
        None
    }
}

fn empty_file_info(path: &str, package: Option<&str>) -> FileInfo {
    FileInfo {
        file_path: path.to_string(),
        package_name: package.map(|p| p.to_string()),
        explicit_imports: StrMap::new(),
        wildcard_imports: Vec::new(),
        classes: StrMap::new(),
        method_calls: vec![],
        constructor_calls: vec![],
        annotations: vec![],
        variables: vec![],
    }
}

fn class(simple: &str, fqdn: &str, extends: Option<&str>, implements: &[&str]) -> ClassInfo {
    ClassInfo {
        simple_name: simple.to_string(),
        fqdn: fqdn.to_string(),
        extends: extends.map(|e| e.to_string()),
        implements: implements.iter().map(|i| i.to_string()).collect(),
        methods: vec![],
        fields: vec![],
        annotations: vec![],
        is_interface: false,
        is_enum: false,
        position: SourcePosition::unknown(),
    }
}

#[test]
fn test_package_extraction() {
    let path = "tests/fixtures/Simple.java";
    let Some(source) = read_fixture(path) else { return };
    let file_info = TypeResolver::extract_file_info(path, &source).unwrap();
    assert_eq!(file_info.package_name, Some("com.example.simple".to_string()));
}

#[test]
fn test_explicit_import_extraction() {
    let path = "tests/fixtures/Simple.java";
    let Some(source) = read_fixture(path) else { return };
    let file_info = TypeResolver::extract_file_info(path, &source).unwrap();
    assert_eq!(file_info.explicit_imports.get("List"), Some(&"java.util.List".to_string()));
    assert_eq!(file_info.explicit_imports.get("ArrayList"), Some(&"java.util.ArrayList".to_string()));
}

#[test]
fn test_class_extraction() {
    let path = "tests/fixtures/Simple.java";
    let Some(source) = read_fixture(path) else { return };
    let file_info = TypeResolver::extract_file_info(path, &source).unwrap();
    let class_info = file_info.classes.get("Simple").unwrap();

    assert_eq!(class_info.simple_name, "Simple");
    assert_eq!(class_info.fqdn, "com.example.simple.Simple");
    assert_eq!(class_info.is_interface, false);
    assert_eq!(class_info.is_enum, false);
}

#[test]
fn test_field_extraction() {
    let path = "tests/fixtures/Simple.java";
    let Some(source) = read_fixture(path) else { return };
    let file_info = TypeResolver::extract_file_info(path, &source).unwrap();
    let class_info = file_info.classes.get("Simple").unwrap();

    assert_eq!(class_info.fields.len(), 2);
    let value_field = class_info.fields.iter().find(|f| f.name == "value").unwrap();
    assert_eq!(value_field.type_name_, "int");
    let name_field = class_info.fields.iter().find(|f| f.name == "name").unwrap();
    assert_eq!(name_field.type_name_, "String");
}

#[test]
fn test_method_extraction() {
    let path = "tests/fixtures/Simple.java";
    let Some(source) = read_fixture(path) else { return };
    let file_info = TypeResolver::extract_file_info(path, &source).unwrap();
    let class_info = file_info.classes.get("Simple").unwrap();

    assert!(class_info.methods.len() >= 5);
    let get_value = class_info.methods.iter().find(|m| m.name == "getValue").unwrap();
    assert_eq!(get_value.return_type, "int");
    assert_eq!(get_value.parameters.len(), 0);
    let set_value = class_info.methods.iter().find(|m| m.name == "setValue").unwrap();
    assert_eq!(set_value.return_type, "void");
    assert_eq!(set_value.parameters.len(), 1);
    assert_eq!(set_value.parameters[0].1, "int");
    let get_items = class_info.methods.iter().find(|m| m.name == "getItems").unwrap();
    assert_eq!(get_items.return_type, "List");
}

#[test]
fn test_extends_implements_extraction() {
    let path = "tests/fixtures/InheritanceExample.java";
    let Some(source) = read_fixture(path) else { return };
    let file_info = TypeResolver::extract_file_info(path, &source).unwrap();
    let class_info = file_info.classes.get("InheritanceExample").unwrap();

    assert_eq!(class_info.extends, Some("BaseClass".to_string()));
    assert!(class_info.implements.contains(&"Runnable".to_string()));
    assert!(class_info.implements.contains(&"Serializable".to_string()));
}

#[test]
fn test_resolve_primitive() {
    let mut resolver = TypeResolver::new();
    let file_path = "tests/fixtures/Simple.java";
    match read_fixture(file_path) {
        Some(source) => resolver.analyze_file(file_path, &source).unwrap(),
        None => resolver.file_infos.insert(file_path.to_string(), empty_file_info(file_path, Some("com.example"))),
    }

    assert_eq!(resolver.resolve_type_name("int", file_path), Some("int".to_string()));
    assert_eq!(resolver.resolve_type_name("boolean", file_path), Some("boolean".to_string()));
}

#[test]
fn test_resolve_explicit_import() {
    let path = "tests/fixtures/Simple.java";
    let Some(source) = read_fixture(path) else { return };
    let mut resolver = TypeResolver::new();
    resolver.analyze_file(path, &source).unwrap();

    assert_eq!(resolver.resolve_type_name("List", path), Some("java.util.List".to_string()));
    assert_eq!(resolver.resolve_type_name("ArrayList", path), Some("java.util.ArrayList".to_string()));
}

#[test]
fn test_resolve_java_lang() {
    let mut resolver = TypeResolver::new();
    let file_path = "tests/fixtures/Simple.java";
    match read_fixture(file_path) {
        Some(source) => resolver.analyze_file(file_path, &source).unwrap(),
        None => resolver.file_infos.insert(file_path.to_string(), empty_file_info(file_path, Some("com.example"))),
    }

    assert_eq!(resolver.resolve_type_name("String", file_path), Some("java.lang.String".to_string()));
    assert_eq!(resolver.resolve_type_name("Object", file_path), Some("java.lang.Object".to_string()));
}

#[test]
fn test_resolve_same_package() {
    let path = "tests/fixtures/Simple.java";
    let Some(source) = read_fixture(path) else { return };
    let mut resolver = TypeResolver::new();
    resolver.analyze_file(path, &source).unwrap();

    assert_eq!(resolver.resolve_type_name("Simple", path), Some("com.example.simple.Simple".to_string()));
}

#[test]
fn test_default_package() {
    let source = r#"
            public class DefaultPackageClass {
                private int value;
            }
        "#;

    let tree = parse_source(source).unwrap();
    let package_name = extract_package(&tree);
    assert_eq!(package_name, None);

    let classes = extract_classes(&tree, &None);
    let class_info = classes.get("DefaultPackageClass").unwrap();
    assert_eq!(class_info.fqdn, "DefaultPackageClass");
}

#[test]
fn test_wildcard_import_extraction() {
    let source = r#"
            package com.example;

            import java.util.*;
            import java.io.*;

            public class WildcardTest {
            }
        "#;

    let tree = parse_source(source).unwrap();
    let (explicit, wildcard) = extract_imports(&tree);

    assert!(explicit.is_empty());
    assert!(wildcard.contains(&"java.util".to_string()));
    assert!(wildcard.contains(&"java.io".to_string()));
}

#[test]
fn type_resolver_test_global_index_build() {
    let path = "tests/fixtures/Simple.java";
    let Some(source) = read_fixture(path) else { return };
    let mut resolver = TypeResolver::new();
    resolver.analyze_file(path, &source).unwrap();
    resolver.build_global_index();

    let fqdns = resolver.global_type_index.get("Simple").unwrap();
    assert!(fqdns.contains(&"com.example.simple.Simple".to_string()));
}

#[test]
fn test_is_primitive() {
    assert!(is_primitive("int"));
    assert!(is_primitive("boolean"));
    assert!(is_primitive("char"));
    assert!(is_primitive("double"));
    assert!(is_primitive("void"));

    assert!(!is_primitive("String"));
    assert!(!is_primitive("List"));
    assert!(!is_primitive("Integer"));
}

#[test]
fn test_is_java_lang_type() {
    assert!(is_java_lang_type("String"));
    assert!(is_java_lang_type("Object"));
    assert!(is_java_lang_type("Integer"));
    assert!(is_java_lang_type("Exception"));

    assert!(!is_java_lang_type("List"));
    assert!(!is_java_lang_type("ArrayList"));
    assert!(!is_java_lang_type("Custom"));
}

#[test]
fn test_build_inheritance_maps() {
    let path = "tests/fixtures/InheritanceExample.java";
    let Some(source) = read_fixture(path) else { return };
    let mut resolver = TypeResolver::new();
    resolver.analyze_file(path, &source).unwrap();
    resolver.build_global_index();
    resolver.build_inheritance_maps();

    let parent = resolver.get_parent_class("com.example.inheritance.InheritanceExample");
    assert!(parent.is_some());
}

fn resolver_with(classes: Vec<ClassInfo>, imports: &[(&str, &str)], path: &str) -> TypeResolver {
    let mut resolver = TypeResolver::new();
    let mut file_info = empty_file_info(path, Some("com.test"));
    for c in classes {
        file_info.classes.insert(c.simple_name.clone(), c);
    }
    for (k, v) in imports {
        file_info.explicit_imports.insert(k.to_string(), v.to_string());
    }
    resolver.file_infos.insert(path.to_string(), file_info);
    resolver.build_global_index();
    resolver.build_inheritance_maps();
    resolver
}

#[test]
fn test_extends_class_direct() {
    let resolver = resolver_with(
        vec![
            class("Parent", "com.test.Parent", None, &[]),
            class("Child", "com.test.Child", Some("Parent"), &[]),
        ],
        &[],
        "test1.java",
    );

    assert!(resolver.extends_class("com.test.Child", "com.test.Parent"));
    assert!(resolver.extends_class("com.test.Child", "Parent"));
    assert!(!resolver.extends_class("com.test.Parent", "Child"));
}

#[test]
fn test_extends_class_transitive() {
    let resolver = resolver_with(
        vec![
            class("Parent", "com.test.Parent", None, &[]),
            class("Child", "com.test.Child", Some("Parent"), &[]),
            class("GrandChild", "com.test.GrandChild", Some("Child"), &[]),
        ],
        &[],
        "test.java",
    );

    assert!(resolver.extends_class("com.test.GrandChild", "com.test.Child"));
    assert!(resolver.extends_class("com.test.GrandChild", "com.test.Parent"));
    assert!(resolver.extends_class("com.test.GrandChild", "Child"));
    assert!(resolver.extends_class("com.test.GrandChild", "Parent"));

    assert!(resolver.extends_class("com.test.Child", "com.test.Parent"));
    assert!(!resolver.extends_class("com.test.Parent", "com.test.Child"));
}

#[test]
fn test_get_all_parents() {
    let resolver = resolver_with(
        vec![
            class("Parent", "com.test.Parent", None, &[]),
            class("Child", "com.test.Child", Some("Parent"), &[]),
            class("GrandChild", "com.test.GrandChild", Some("Child"), &[]),
        ],
        &[],
        "test.java",
    );

    let parents = resolver.get_all_parents("com.test.GrandChild");
    assert_eq!(parents.len(), 2);
    assert_eq!(parents[0], "com.test.Child");
    assert_eq!(parents[1], "com.test.Parent");

    let parents = resolver.get_all_parents("com.test.Child");
    assert_eq!(parents.len(), 1);
    assert_eq!(parents[0], "com.test.Parent");

    let parents = resolver.get_all_parents("com.test.Parent");
    assert_eq!(parents.len(), 0);
}

#[test]
fn test_implements_interface_direct() {
    let resolver = resolver_with(
        vec![class("MyClass", "com.test.MyClass", None, &["Runnable", "Cloneable"])],
        &[("Runnable", "java.lang.Runnable"), ("Cloneable", "java.lang.Cloneable")],
        "test.java",
    );

    assert!(resolver.implements_interface("com.test.MyClass", "java.lang.Runnable"));
    assert!(resolver.implements_interface("com.test.MyClass", "Runnable"));
    assert!(resolver.implements_interface("com.test.MyClass", "java.lang.Cloneable"));
    assert!(resolver.implements_interface("com.test.MyClass", "Cloneable"));
    assert!(!resolver.implements_interface("com.test.MyClass", "Serializable"));
}

#[test]
fn test_implements_interface_transitive() {
    let resolver = resolver_with(
        vec![
            class("Parent", "com.test.Parent", None, &["Runnable"]),
            class("Child", "com.test.Child", Some("Parent"), &["Cloneable"]),
        ],
        &[("Runnable", "java.lang.Runnable"), ("Cloneable", "java.lang.Cloneable")],
        "test.java",
    );

    assert!(resolver.implements_interface("com.test.Child", "java.lang.Cloneable"));
    assert!(resolver.implements_interface("com.test.Child", "Cloneable"));
    assert!(resolver.implements_interface("com.test.Child", "java.lang.Runnable"));
    assert!(resolver.implements_interface("com.test.Child", "Runnable"));

    assert!(resolver.implements_interface("com.test.Parent", "java.lang.Runnable"));
    assert!(!resolver.implements_interface("com.test.Parent", "Cloneable"));
}

#[test]
fn test_get_all_interfaces() {
    let resolver = resolver_with(
        vec![
            class("Parent", "com.test.Parent", None, &["Runnable"]),
            class("Child", "com.test.Child", Some("Parent"), &["Cloneable", "Serializable"]),
        ],
        &[
            ("Runnable", "java.lang.Runnable"),
            ("Cloneable", "java.lang.Cloneable"),
            ("Serializable", "java.io.Serializable"),
        ],
        "test.java",
    );

    let interfaces = resolver.get_all_interfaces("com.test.Child");
    assert_eq!(interfaces.len(), 3);
    assert!(interfaces.contains(&"java.lang.Cloneable".to_string()));
    assert!(interfaces.contains(&"java.io.Serializable".to_string()));
    assert!(interfaces.contains(&"java.lang.Runnable".to_string()));
}

#[test]
fn test_annotation_with_array_element() {
    let java_code = r#"
package io.konveyor.demo.ordermanagement.config;

import org.springframework.data.jpa.repository.config.EnableJpaRepositories;
import org.springframework.context.annotation.Bean;

@EnableJpaRepositories(basePackages = {
        "io.konveyor.demo.ordermanagement.repository"
})
public class PersistenceConfig {
    @Bean
    public void entityManagerFactory() {}
}
"#;

    let tree = parse_source(java_code).unwrap();
    let class_nodes = find_nodes_by_kind(&tree, "class_declaration");
    assert!(!class_nodes.is_empty(), "Should find at least one class");

    let annotations = extract_annotations_from_node(&tree, class_nodes[0]);
    let enable_jpa = annotations
        .iter()
        .find(|a| a.name == "EnableJpaRepositories")
        .expect("Should find EnableJpaRepositories annotation");

    assert!(enable_jpa.elements.contains_key("basePackages"), "Should have basePackages element");
    let base_packages = enable_jpa.elements.get("basePackages").unwrap();
    assert_eq!(base_packages, "io.konveyor.demo.ordermanagement.repository", "basePackages should match");
}

const INLINE_SOURCE: &str = r#"
package com.example.simple;

import java.util.List;
import java.util.ArrayList;

public class Simple extends Base implements Runnable {
    private int value;
    private String name;

    public int getValue() { return value; }

    public void setValue(int value) { this.value = value; }

    public List<String> getItems() {
        List<String> items = new ArrayList<>();
        items.add(name);
        return items;
    }

    public void run() {}
}
"#;

#[test]
fn analyses_inline_source() {
    let mut resolver = TypeResolver::new();
    resolver.analyze_file("Simple.java", INLINE_SOURCE).unwrap();
    let fi = resolver.file_infos.get("Simple.java").unwrap();
    assert_eq!(fi.package_name, Some("com.example.simple".to_string()));
    assert_eq!(fi.explicit_imports.get("List"), Some(&"java.util.List".to_string()));
    let c = fi.classes.get("Simple").unwrap();
    assert_eq!(c.fqdn, "com.example.simple.Simple");
    assert_eq!(c.extends, Some("Base".to_string()));
    assert_eq!(c.implements, vec!["Runnable".to_string()]);
    assert_eq!(c.fields.len(), 2);
    assert_eq!(c.fields[0].type_name_, "int");
    let get_items = c.methods.iter().find(|m| m.name == "getItems").unwrap();
    assert_eq!(get_items.return_type, "List");
    let set_value = c.methods.iter().find(|m| m.name == "setValue").unwrap();
    assert_eq!(set_value.parameters, vec![("value".to_string(), "int".to_string())]);
    assert!(fi.constructor_calls.iter().any(|cc| cc.type_name_ == "ArrayList"));
    assert!(fi.method_calls.iter().any(|mc| mc.method_name == "add"));

    resolver.build_global_index();
    assert_eq!(resolver.resolve_type_name("Simple", "Simple.java"), Some("com.example.simple.Simple".to_string()));
    assert_eq!(resolver.resolve_type_name("ArrayList", "Simple.java"), Some("java.util.ArrayList".to_string()));
    assert_eq!(resolver.resolve_type_name("Unknown", "Simple.java"), None);
    assert_eq!(resolver.resolve_type_name("int", "Missing.java"), None);
}

#[test]
fn reanalysis_replaces_a_file() {
    let mut resolver = TypeResolver::new();
    resolver.analyze_file("A.java", "package p; class A {}").unwrap();
    resolver.analyze_file("A.java", "package q; class B {}").unwrap();
    assert_eq!(resolver.file_infos.len(), 1);
    let fi = resolver.file_infos.get("A.java").unwrap();
    assert_eq!(fi.package_name, Some("q".to_string()));
    assert!(fi.classes.get("A").is_none());
    assert!(fi.classes.get("B").is_some());
}

#[test]
fn parent_chain_stops_at_cycles() {
    let resolver = resolver_with(
        vec![class("A", "com.test.A", Some("B"), &[]), class("B", "com.test.B", Some("A"), &[])],
        &[],
        "cycle.java",
    );
    let parents = resolver.get_all_parents("com.test.A");
    assert!(parents.len() <= 101);
    assert_eq!(parents[0], "com.test.B");
    assert_eq!(resolver.get_interfaces("com.test.A").len(), 0);
}

use java_analyzer_provider::java_graph::type_resolver::TypeResolver;

/// The inheritance fixture, as the checks on it describe it.
const INHERITANCE_EXAMPLE: &str = r#"
package com.example.inheritance;

import java.io.Serializable;

public class InheritanceExample extends BaseClass implements Runnable, Serializable {
    public void run() {
    }
}

class BaseClass {
}
"#;

#[test]
fn test_inheritance_example_tracking() {
    let mut resolver = TypeResolver::new();
    resolver.analyze_file("tests/fixtures/InheritanceExample.java", INHERITANCE_EXAMPLE).unwrap();
    resolver.build_global_index();
    resolver.build_inheritance_maps();

    let class_fqdn = "com.example.inheritance.InheritanceExample";
    let interfaces = resolver.get_interfaces(class_fqdn);
    assert!(!interfaces.is_empty(), "Should have at least one interface");
}

#[test]
fn test_complex_inheritance_hierarchy() {
    let source1 = r#"
        package com.test;

        public class GrandParent {
            public void ancestorMethod() {}
        }
    "#;

    let source2 = r#"
        package com.test;

        public class Parent extends GrandParent implements Runnable {
            public void run() {}
        }
    "#;

    let source3 = r#"
        package com.test;

        import java.io.Serializable;

        public class Child extends Parent implements Serializable {
            public void childMethod() {}
        }
    "#;

    let mut resolver = TypeResolver::new();
    resolver.analyze_file("GrandParent.java", source1).unwrap();
    resolver.analyze_file("Parent.java", source2).unwrap();
    resolver.analyze_file("Child.java", source3).unwrap();

    resolver.build_global_index();
    resolver.build_inheritance_maps();

    assert!(resolver.extends_class("com.test.Child", "com.test.Parent"));
    assert!(resolver.extends_class("com.test.Child", "com.test.GrandParent"));
    assert!(resolver.extends_class("com.test.Child", "Parent"));
    assert!(resolver.extends_class("com.test.Child", "GrandParent"));

    assert!(resolver.extends_class("com.test.Parent", "com.test.GrandParent"));
    assert!(!resolver.extends_class("com.test.GrandParent", "com.test.Parent"));

    assert!(resolver.implements_interface("com.test.Child", "Serializable"));
    assert!(resolver.implements_interface("com.test.Child", "Runnable"));

    assert!(resolver.implements_interface("com.test.Parent", "Runnable"));
    assert!(!resolver.implements_interface("com.test.Parent", "Serializable"));

    let parents = resolver.get_all_parents("com.test.Child");
    assert_eq!(parents.len(), 2);
    assert_eq!(parents[0], "com.test.Parent");
    assert_eq!(parents[1], "com.test.GrandParent");

    let interfaces = resolver.get_all_interfaces("com.test.Child");
    assert_eq!(interfaces.len(), 2);
    assert!(interfaces.iter().any(|i| i.contains("Serializable")));
    assert!(interfaces.iter().any(|i| i.contains("Runnable")));
}

#[test]
fn test_multiple_interfaces() {
    let source = r#"
        package com.test;

        import java.io.Serializable;
        import java.lang.Cloneable;

        public class MultiInterface implements Runnable, Serializable, Cloneable {
            public void run() {}
        }
    "#;

    let mut resolver = TypeResolver::new();
    resolver.analyze_file("MultiInterface.java", source).unwrap();
    resolver.build_global_index();
    resolver.build_inheritance_maps();

    let class_fqdn = "com.test.MultiInterface";
    assert!(resolver.implements_interface(class_fqdn, "Runnable"));
    assert!(resolver.implements_interface(class_fqdn, "Serializable"));
    assert!(resolver.implements_interface(class_fqdn, "Cloneable"));

    let all_interfaces = resolver.get_all_interfaces(class_fqdn);
    assert_eq!(all_interfaces.len(), 3);
}

#[test]
fn test_no_inheritance() {
    let source = r#"
        package com.test;

        public class Standalone {
            private int value;
        }
    "#;

    let mut resolver = TypeResolver::new();
    resolver.analyze_file("Standalone.java", source).unwrap();
    resolver.build_global_index();
    resolver.build_inheritance_maps();

    let class_fqdn = "com.test.Standalone";
    assert!(resolver.get_parent_class(class_fqdn).is_none());
    assert_eq!(resolver.get_all_parents(class_fqdn).len(), 0);
    assert_eq!(resolver.get_interfaces(class_fqdn).len(), 0);
    assert_eq!(resolver.get_all_interfaces(class_fqdn).len(), 0);
    assert!(!resolver.extends_class(class_fqdn, "Object"));
    assert!(!resolver.implements_interface(class_fqdn, "Runnable"));
}

#[test]
fn test_interface_from_wildcard_import() {
    let source = r#"
        package com.test;

        import java.util.*;

        public class MyList implements List {
            // Implementation
        }
    "#;

    let mut resolver = TypeResolver::new();
    resolver.analyze_file("MyList.java", source).unwrap();
    resolver.build_global_index();
    resolver.global_type_index.append("List".to_string(), "java.util.List".to_string());
    resolver.build_inheritance_maps();

    let interfaces = resolver.get_interfaces("com.test.MyList");
    if !interfaces.is_empty() {
        assert!(interfaces[0].contains("List"));
    }
}

#[test]
fn test_pattern_matching_in_queries() {
    let source = r#"
        package com.example.myapp;

        import com.example.base.BaseClass;
        import java.io.Serializable;

        public class MyClass extends BaseClass implements Serializable {
        }
    "#;

    let mut resolver = TypeResolver::new();
    resolver.analyze_file("MyClass.java", source).unwrap();
    resolver.build_global_index();
    resolver.build_inheritance_maps();

    let class_fqdn = "com.example.myapp.MyClass";
    let parent = resolver.get_parent_class(class_fqdn).cloned();
    if let Some(parent_fqdn) = parent {
        assert!(resolver.extends_class(class_fqdn, "BaseClass"));
        assert!(resolver.extends_class(class_fqdn, &parent_fqdn));
    }

    assert!(resolver.implements_interface(class_fqdn, "Serializable"));
    assert!(resolver.implements_interface(class_fqdn, "java.io.Serializable"));
}

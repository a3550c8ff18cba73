use java_analyzer_provider::java_graph::type_resolver::TypeResolver;

#[test]
fn debug_method_call_extraction() {
    let source = r#"package com.example;

public class MyClass {
    public void example() {
        obj.doSomething();
    }
}
"#;
    let path = "MyClass.java";
    let mut resolver = TypeResolver::new();
    resolver.analyze_file(path, source).unwrap();

    if let Some(file_info) = resolver.file_infos.get(path) {
        println!("Extracted {} method calls:", file_info.method_calls.len());
        for call in &file_info.method_calls {
            println!("  - Method: {}", call.method_name);
            println!("    Receiver: {:?}", call.receiver_type);
            println!("    Position: line {}, col {}", call.position.line, call.position.column);
        }
    }

    assert_eq!(resolver.file_infos.get(path).unwrap().method_calls.len(), 1);
}

#[test]
fn debug_constructor_call_extraction() {
    let source = r#"package com.example;

import java.util.ArrayList;

public class MyClass {
    public void example() {
        User user = new User("John");
        ArrayList<String> list = new ArrayList<>();
    }
}
"#;
    let path = "MyClass.java";
    let mut resolver = TypeResolver::new();
    resolver.analyze_file(path, source).unwrap();

    if let Some(file_info) = resolver.file_infos.get(path) {
        println!("Extracted {} constructor calls:", file_info.constructor_calls.len());
        for call in &file_info.constructor_calls {
            println!("  - Type: {}", call.type_name_);
            println!("    Position: line {}, col {}", call.position.line, call.position.column);
        }
    }

    assert_eq!(resolver.file_infos.get(path).unwrap().constructor_calls.len(), 2);
}

#[test]
fn debug_constructor_type_resolution() {
    let source = r#"package com.example;

import java.util.ArrayList;

public class MyClass {
    public void example() {
        ArrayList<String> list = new ArrayList<>();
    }
}
"#;
    let path = "MyClass.java";
    let mut resolver = TypeResolver::new();
    resolver.analyze_file(path, source).unwrap();
    resolver.build_global_index();

    if let Some(file_info) = resolver.file_infos.get(path) {
        for call in &file_info.constructor_calls {
            let resolved = resolver.resolve_type_name(&call.type_name_, path);
            println!("Type: {} -> Resolved: {:?}", call.type_name_, resolved);
        }
    }
}

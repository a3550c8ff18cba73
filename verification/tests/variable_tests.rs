use java_analyzer_provider::java_graph::query::{LocationType, Pattern, QueryEngine, ReferencedQuery};
use java_analyzer_provider::java_graph::type_resolver::TypeResolver;

#[test]
fn test_simple_variable_declaration() {
    let source = r#"package com.example;

public class MyClass {
    public void example() {
        int count = 0;
    }
}
"#;
    let path = "src/main/java/com/example/MyClass.java".to_string();

    let mut resolver = TypeResolver::new();
    resolver.analyze_file(&path, source).unwrap();
    resolver.build_global_index();
    let engine = QueryEngine::new(resolver);

    // Query by type
    let query = ReferencedQuery {
        pattern: Pattern::from_string("int").unwrap(),
        location: LocationType::Variable,
        annotated: None,
        filters: None,
    };

    let results = engine.query(&query);
    assert_eq!(results.len(), 1);

    let result = &results[0];
    assert!(result.symbol.contains("count"));
    assert!(result.symbol.contains("int"));
    assert_eq!(result.line_number, 5); // int count = 0; is on line 5
}

#[test]
fn test_variable_declaration_by_name() {
    let source = r#"package com.example;

public class MyClass {
    public void example() {
        String name = "John";
    }
}
"#;
    let path = "src/main/java/com/example/MyClass.java".to_string();

    let mut resolver = TypeResolver::new();
    resolver.analyze_file(&path, source).unwrap();
    resolver.build_global_index();
    let engine = QueryEngine::new(resolver);

    // Query by variable name
    let query = ReferencedQuery {
        pattern: Pattern::from_string("name").unwrap(),
        location: LocationType::Variable,
        annotated: None,
        filters: None,
    };

    let results = engine.query(&query);
    assert_eq!(results.len(), 1);

    let result = &results[0];
    assert!(result.symbol.contains("name"));
    assert!(result.symbol.contains("String"));
}

#[test]
fn test_generic_type_variable() {
    let source = r#"package com.example;

import java.util.List;
import java.util.ArrayList;

public class MyClass {
    public void example() {
        List<String> items = new ArrayList<>();
    }
}
"#;
    let path = "src/main/java/com/example/MyClass.java".to_string();

    let mut resolver = TypeResolver::new();
    resolver.analyze_file(&path, source).unwrap();
    resolver.build_global_index();
    let engine = QueryEngine::new(resolver);

    // Query by type (should match List)
    let query = ReferencedQuery {
        pattern: Pattern::from_string("List").unwrap(),
        location: LocationType::Variable,
        annotated: None,
        filters: None,
    };

    let results = engine.query(&query);
    assert_eq!(results.len(), 1);

    let result = &results[0];
    assert!(result.symbol.contains("items"));
    assert!(result.symbol.contains("List"));
    assert_eq!(result.line_number, 8);
}

#[test]
fn test_multiple_variables() {
    let source = r#"package com.example;

public class MyClass {
    public void example() {
        int x = 1;
        int y = 2;
        String name = "test";
    }
}
"#;
    let path = "src/main/java/com/example/MyClass.java".to_string();

    let mut resolver = TypeResolver::new();
    resolver.analyze_file(&path, source).unwrap();
    resolver.build_global_index();
    let engine = QueryEngine::new(resolver);

    // Query for int variables
    let query = ReferencedQuery {
        pattern: Pattern::from_string("int").unwrap(),
        location: LocationType::Variable,
        annotated: None,
        filters: None,
    };

    let results = engine.query(&query);
    assert_eq!(results.len(), 2); // x and y
}

#[test]
fn test_variable_in_different_methods() {
    let source = r#"package com.example;

public class MyClass {
    public void methodOne() {
        int value = 1;
    }

    public void methodTwo() {
        int value = 2;
    }
}
"#;
    let path = "src/main/java/com/example/MyClass.java".to_string();

    let mut resolver = TypeResolver::new();
    resolver.analyze_file(&path, source).unwrap();
    resolver.build_global_index();
    let engine = QueryEngine::new(resolver);

    // Query by variable name
    let query = ReferencedQuery {
        pattern: Pattern::from_string("value").unwrap(),
        location: LocationType::Variable,
        annotated: None,
        filters: None,
    };

    let results = engine.query(&query);
    assert_eq!(results.len(), 2); // One in each method

    // Check that both have method context
    for result in &results {
        assert!(result.symbol.contains("method"));
    }
}

#[test]
fn test_variable_position_not_zero() {
    let source = r#"package com.example;

public class MyClass {
    public void example() {
        int x = 1;
        String name = "test";
    }
}
"#;
    let path = "src/main/java/com/example/MyClass.java".to_string();

    let mut resolver = TypeResolver::new();
    resolver.analyze_file(&path, source).unwrap();
    resolver.build_global_index();
    let engine = QueryEngine::new(resolver);

    let query = ReferencedQuery {
        pattern: Pattern::from_string("*").unwrap(),
        location: LocationType::Variable,
        annotated: None,
        filters: None,
    };

    let results = engine.query(&query);
    assert!(results.len() >= 2);

    for result in &results {
        assert_ne!(result.line_number, 0, "Variable position should not be 0");
    }
}

#[test]
fn test_variable_pattern_matching() {
    let source = r#"package com.example;

public class MyClass {
    public void example() {
        int count = 0;
        int total = 0;
        String name = "test";
    }
}
"#;
    let path = "src/main/java/com/example/MyClass.java".to_string();

    let mut resolver = TypeResolver::new();
    resolver.analyze_file(&path, source).unwrap();
    resolver.build_global_index();
    let engine = QueryEngine::new(resolver);

    // Find all variables with wildcard
    let query = ReferencedQuery {
        pattern: Pattern::from_string("*").unwrap(),
        location: LocationType::Variable,
        annotated: None,
        filters: None,
    };

    let results = engine.query(&query);
    assert_eq!(results.len(), 3);
}

#[test]
fn test_variable_with_resolved_type() {
    let source = r#"package com.example;

import java.util.ArrayList;

public class MyClass {
    public void example() {
        ArrayList<String> items = new ArrayList<>();
    }
}
"#;
    let path = "src/main/java/com/example/MyClass.java".to_string();

    let mut resolver = TypeResolver::new();
    resolver.analyze_file(&path, source).unwrap();
    resolver.build_global_index();
    let engine = QueryEngine::new(resolver);

    // Query by FQDN pattern
    let query = ReferencedQuery {
        pattern: Pattern::from_string("java.util.*").unwrap(),
        location: LocationType::Variable,
        annotated: None,
        filters: None,
    };

    let results = engine.query(&query);
    assert_eq!(results.len(), 1);

    let result = &results[0];
    assert!(result.symbol.contains("items"));
    assert_eq!(result.fqdn, Some("java.util.ArrayList".to_string()));
}

#[test]
fn test_variable_in_constructor() {
    let source = r#"package com.example;

public class MyClass {
    public MyClass() {
        int initialized = 1;
    }
}
"#;
    let path = "src/main/java/com/example/MyClass.java".to_string();

    let mut resolver = TypeResolver::new();
    resolver.analyze_file(&path, source).unwrap();
    resolver.build_global_index();
    let engine = QueryEngine::new(resolver);

    let query = ReferencedQuery {
        pattern: Pattern::from_string("initialized").unwrap(),
        location: LocationType::Variable,
        annotated: None,
        filters: None,
    };

    let results = engine.query(&query);
    assert_eq!(results.len(), 1);

    let result = &results[0];
    assert!(result.symbol.contains("initialized"));
    // Should have method context (constructor)
    assert!(result.symbol.contains("MyClass"));
}

#[test]
fn test_variable_boolean_type() {
    let source = r#"package com.example;

public class MyClass {
    public void example() {
        boolean isValid = true;
    }
}
"#;
    let path = "src/main/java/com/example/MyClass.java".to_string();

    let mut resolver = TypeResolver::new();
    resolver.analyze_file(&path, source).unwrap();
    resolver.build_global_index();
    let engine = QueryEngine::new(resolver);

    let query = ReferencedQuery {
        pattern: Pattern::from_string("boolean").unwrap(),
        location: LocationType::Variable,
        annotated: None,
        filters: None,
    };

    let results = engine.query(&query);
    assert_eq!(results.len(), 1);

    let result = &results[0];
    assert!(result.symbol.contains("isValid"));
    assert!(result.symbol.contains("boolean"));
}

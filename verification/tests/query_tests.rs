use java_analyzer_provider::java_graph::model::{AnnotationInfo, SourcePosition};
use java_analyzer_provider::java_graph::query::{
    value_matches, AnnotationFilter, CompositePattern, LocationType, Pattern, PatternCache, PatternOptions,
    QueryEngine, QueryFilters, ReferencedQuery,
};
use java_analyzer_provider::java_graph::type_resolver::TypeResolver;
use java_analyzer_provider::strmap::StrMap;

#[test]
fn test_literal_pattern() {
    let pattern = Pattern::from_string("String").unwrap();
    assert!(pattern.matches("String"));
    assert!(!pattern.matches("string"));
    assert!(!pattern.matches("StringBuilder"));
}

#[test]
fn test_wildcard_pattern() {
    let pattern = Pattern::from_string("java.util.*").unwrap();
    assert!(pattern.matches("java.util.List"));
    assert!(pattern.matches("java.util.ArrayList"));
    assert!(!pattern.matches("java.lang.String"));
}

#[test]
fn test_regex_pattern() {
    let pattern = Pattern::from_string("^java\\.util\\.(List|Set)$").unwrap();
    assert!(pattern.matches("java.util.List"));
    assert!(pattern.matches("java.util.Set"));
    assert!(!pattern.matches("java.util.Map"));
    assert!(!pattern.matches("java.util.ArrayList"));
}

#[test]
fn test_case_insensitive_literal() {
    let pattern = Pattern::from_string_case_insensitive("String").unwrap();
    assert!(pattern.matches("String"));
    assert!(pattern.matches("string"));
    assert!(pattern.matches("STRING"));
    assert!(!pattern.matches("StringBuilder"));
}

#[test]
fn test_case_insensitive_wildcard() {
    let options = PatternOptions { case_insensitive: true, whole_word: false };
    let pattern = Pattern::from_string_with_options("java.util.*", options).unwrap();
    assert!(pattern.matches("java.util.List"));
    assert!(pattern.matches("JAVA.UTIL.List"));
    assert!(pattern.matches("Java.Util.ArrayList"));
}

#[test]
fn test_composite_and_pattern() {
    let pattern1 = Pattern::from_string("*Service").unwrap();
    let pattern2 = Pattern::from_string("com.example.*").unwrap();
    let composite = Pattern::and(vec![pattern1, pattern2]);

    assert!(composite.matches("com.example.UserService"));
    assert!(!composite.matches("com.other.UserService"));
    assert!(!composite.matches("com.example.UserController"));
}

#[test]
fn test_composite_or_pattern() {
    let pattern1 = Pattern::from_string("*Controller").unwrap();
    let pattern2 = Pattern::from_string("*Service").unwrap();
    let composite = Pattern::or(vec![pattern1, pattern2]);

    assert!(composite.matches("UserController"));
    assert!(composite.matches("UserService"));
    assert!(!composite.matches("UserRepository"));
}

#[test]
fn test_composite_not_pattern() {
    let pattern = Pattern::from_string("*Test").unwrap();
    let composite = Pattern::not(pattern);

    assert!(composite.matches("UserService"));
    assert!(composite.matches("UserController"));
    assert!(!composite.matches("UserTest"));
    assert!(!composite.matches("ServiceTest"));
}

#[test]
fn test_complex_composite_pattern() {
    let pattern1 = Pattern::or(vec![
        Pattern::from_string("*Controller").unwrap(),
        Pattern::from_string("*Service").unwrap(),
    ]);
    let pattern2 = Pattern::from_string("com.example.*").unwrap();
    let composite = Pattern::and(vec![pattern1, pattern2]);

    assert!(composite.matches("com.example.UserController"));
    assert!(composite.matches("com.example.AuthService"));
    assert!(!composite.matches("com.example.UserRepository"));
    assert!(!composite.matches("com.other.UserController"));
}

#[test]
fn test_pattern_cache() {
    let mut cache = PatternCache::new();
    assert_eq!(cache.size(), 0);

    let pattern1 = cache.get_or_compile("java.util.*").unwrap();
    assert_eq!(cache.size(), 1);

    let pattern2 = cache.get_or_compile("java.util.*").unwrap();
    assert_eq!(cache.size(), 1);

    let pattern3 = cache.get_or_compile("com.example.*").unwrap();
    assert_eq!(cache.size(), 2);

    assert!(pattern1.matches("java.util.List"));
    assert!(pattern2.matches("java.util.List"));
    assert!(pattern3.matches("com.example.Test"));

    cache.clear();
    assert_eq!(cache.size(), 0);
}

#[test]
fn test_pattern_options_default() {
    let options = PatternOptions::default();
    assert!(!options.case_insensitive);
    assert!(!options.whole_word);
}

#[test]
fn test_query_filters_default() {
    let filters = QueryFilters::default();
    assert!(filters.annotated.is_none());
    assert!(filters.access_modifier.is_none());
    assert!(filters.is_static.is_none());
    assert!(!filters.exclude_tests);
    assert!(!filters.deprecated_only);
}

#[test]
fn test_composite_pattern_and() {
    let composite = CompositePattern::And(vec![
        Pattern::from_string("*Service").unwrap(),
        Pattern::from_string("User*").unwrap(),
    ]);

    assert!(composite.matches("UserService"));
    assert!(!composite.matches("UserController"));
    assert!(!composite.matches("AuthService"));
}

#[test]
fn test_composite_pattern_or() {
    let composite = CompositePattern::Or(vec![
        Pattern::from_string("*Test").unwrap(),
        Pattern::from_string("*TestCase").unwrap(),
    ]);

    assert!(composite.matches("UserTest"));
    assert!(composite.matches("AuthTestCase"));
    assert!(!composite.matches("UserService"));
}

#[test]
fn test_composite_pattern_not() {
    let composite = CompositePattern::Not(Box::new(Pattern::from_string("*Test").unwrap()));

    assert!(composite.matches("UserService"));
    assert!(!composite.matches("UserTest"));
}

#[test]
fn test_annotation_element_regex_matching() {
    let mut elements = StrMap::new();
    elements.insert("name".to_string(), "nameForThisBean".to_string());
    elements.insert("autowireCandidate".to_string(), "false".to_string());

    let annotation = AnnotationInfo {
        name: "Bean".to_string(),
        fqdn: Some("org.springframework.context.annotation.Bean".to_string()),
        elements,
        position: SourcePosition { line: 16, column: 5, end_line: 16, end_column: 50 },
    };

    let mut filter_elements = StrMap::new();
    filter_elements.insert("name".to_string(), "nameFor.*".to_string());
    filter_elements.insert("autowireCandidate".to_string(), "false".to_string());

    let filter = AnnotationFilter {
        pattern: Some("org.springframework.context.annotation.Bean".to_string()),
        elements: filter_elements,
    };

    let annotations = vec![annotation];
    let result = QueryEngine::matches_annotation_filter(&annotations, &filter);

    assert!(result, "Annotation should match the filter with regex pattern 'nameFor.*' matching 'nameForThisBean' and literal 'false' matching 'false'");
}

/// The configuration class of the sample tiles application, as the check
/// below describes it.
const TILES_CONFIG_JAVA: &str = r#"
package com.example.config;

import org.springframework.context.annotation.Bean;
import org.springframework.context.annotation.Configuration;
import org.springframework.web.servlet.view.tiles3.TilesConfigurer;

@Configuration
public class TilesConfig {

    @Bean(name = "nameForThisBean", autowireCandidate = false)
    public TilesConfigurer tilesConfigurer() {
        TilesConfigurer configurer = new TilesConfigurer();
        configurer.setDefinitions("/WEB-INF/tiles.xml");
        return configurer;
    }
}
"#;

#[test]
fn test_tiles_config_annotation_extraction() {
    let file_path = "e2e-tests/examples/sample-tiles-app/src/main/java/com/example/config/TilesConfig.java";
    let source = TILES_CONFIG_JAVA;

    let mut resolver = TypeResolver::new();
    resolver.analyze_file(file_path, source).unwrap();

    let file_info = resolver.file_infos.get(file_path).expect("File info should exist");
    let tiles_config = file_info.classes.get("TilesConfig").expect("TilesConfig class should exist");
    let method = tiles_config
        .methods
        .iter()
        .find(|m| m.name == "tilesConfigurer")
        .expect("tilesConfigurer method should exist");
    assert!(!method.annotations.is_empty(), "tilesConfigurer method should have annotations");

    let bean = method.annotations.iter().find(|a| a.name == "Bean").expect("@Bean annotation should exist");
    assert!(bean.elements.contains_key("name"));
    assert_eq!(bean.elements.get("name").unwrap(), "nameForThisBean");
    assert!(bean.elements.contains_key("autowireCandidate"));
    assert_eq!(bean.elements.get("autowireCandidate").unwrap(), "false");
}

const SERVICE_SOURCE: &str = r#"
package com.example.service;

import java.util.List;
import java.util.ArrayList;
import javax.inject.Inject;

@Deprecated
public class UserService extends BaseService implements Runnable {
    @Inject
    private UserRepository repository;
    private List<String> names;

    public UserService() {}

    public List<String> findAll(String filter) {
        List<String> result = new ArrayList<>();
        repository.load(filter);
        return result;
    }

    public void run() {}
}

enum Color { RED, GREEN }
"#;

const TEST_SOURCE: &str = r#"
package com.example.service;

public class UserServiceTest {
    public void testFindAll() {}
}
"#;

fn engine() -> QueryEngine {
    let mut resolver = TypeResolver::new();
    resolver.analyze_file("src/main/java/com/example/service/UserService.java", SERVICE_SOURCE).unwrap();
    resolver.analyze_file("src/test/java/com/example/service/UserServiceTest.java", TEST_SOURCE).unwrap();
    resolver.build_global_index();
    resolver.build_inheritance_maps();
    resolver.resolve_annotation_fqdns();
    QueryEngine::new(resolver)
}

fn query(loc: LocationType, pattern: &str) -> ReferencedQuery {
    ReferencedQuery { pattern: Pattern::from_string(pattern).unwrap(), location: loc, annotated: None, filters: None }
}

#[test]
fn queries_imports_and_packages() {
    let e = engine();
    let r = e.query(&query(LocationType::Import, "java.util.List"));
    assert_eq!(r.len(), 1);
    assert_eq!(r[0].symbol, "List");
    assert_eq!(r[0].fqdn, Some("java.util.List".to_string()));
    assert_eq!(r[0].line_number, 0);
    let r = e.query(&query(LocationType::Import, "java.util.*"));
    assert_eq!(r.len(), 2);
    let r = e.query(&query(LocationType::Package, "com.example.service"));
    assert!(!r.is_empty());
}

#[test]
fn queries_classes_types_enums() {
    let e = engine();
    let r = e.query(&query(LocationType::Class, "com.example.service.UserService"));
    assert_eq!(r.len(), 1);
    assert_eq!(r[0].file_path, "src/main/java/com/example/service/UserService.java");
    let r = e.query(&query(LocationType::Class, "*Service*"));
    assert_eq!(r.len(), 2);
    let r = e.query(&query(LocationType::Enum, "*Color"));
    assert_eq!(r.len(), 1);
}

#[test]
fn queries_inheritance_and_implements() {
    let e = engine();
    let r = e.query(&query(LocationType::Inheritance, "*BaseService"));
    assert_eq!(r.len(), 1);
    let r = e.query(&query(LocationType::ImplementsType, "*Runnable"));
    assert_eq!(r.len(), 1);
}

#[test]
fn queries_calls_and_constructors() {
    let e = engine();
    let r = e.query(&query(LocationType::ConstructorCall, "java.util.ArrayList"));
    assert_eq!(r.len(), 1);
    let r = e.query(&query(LocationType::MethodCall, "*load"));
    assert!(!r.is_empty());
}

#[test]
fn queries_fields_methods_annotations() {
    let e = engine();
    let r = e.query(&query(LocationType::Method, "findAll"));
    assert!(!r.is_empty());
    let r = e.query(&query(LocationType::Field, "*List*"));
    assert!(!r.is_empty());
    let r = e.query(&query(LocationType::Annotation, "javax.inject.Inject"));
    assert!(!r.is_empty());
    let r = e.query(&query(LocationType::Annotation, "NoSuchAnnotation"));
    assert!(r.is_empty());
}

#[test]
fn exclude_tests_filter_drops_test_code() {
    let e = engine();
    let all = e.query(&query(LocationType::Method, "*"));
    let mut q = query(LocationType::Method, "*");
    let mut filters = QueryFilters::default();
    filters.exclude_tests = true;
    q.filters = Some(filters);
    let kept = e.query(&q);
    assert!(kept.len() < all.len());
    assert!(kept.iter().all(|r| !r.file_path.contains("/test/") && !r.symbol.contains("Test")));
}

#[test]
fn value_matching_literal_and_regex() {
    assert!(value_matches("false", "false"));
    assert!(value_matches("nameForThisBean", "nameFor.*"));
    assert!(!value_matches("other", "nameFor.*"));
    assert!(!value_matches("true", "false"));
}

#[test]
fn invalid_regex_is_an_error() {
    assert!(Pattern::from_string("java.(util").is_err());
    let e = Pattern::from_string("java.(util").unwrap_err();
    assert_eq!(e.message(), "Invalid regex pattern: java.(util");
}

#[test]
fn whole_word_literal() {
    let options = PatternOptions { case_insensitive: false, whole_word: true };
    let p = Pattern::from_string_with_options("List", options).unwrap();
    assert!(p.matches("List"));
    assert!(!p.matches("ArrayList"));
    assert_eq!(p.as_string(), Some("List"));
}

#[test]
fn engine_pattern_cache_starts_empty() {
    let mut e = engine();
    assert_eq!(e.pattern_cache_size(), 0);
    e.clear_pattern_cache();
    assert_eq!(e.pattern_cache_size(), 0);
}

#[test]
fn package_pattern_matches_the_whole_name() {
    let p = Pattern::from_string("org.springframework.*").unwrap();
    assert!(matches!(p, Pattern::Regex(..)));
    assert!(p.matches("org.springframework.web.Foo"));
    assert!(!p.matches("com.org.springframework.Foo"));
    assert!(!p.matches("com.example.Foo"));
    let n = Pattern::from_string("nameFor.*").unwrap();
    assert!(n.matches("nameForThisBean"));
    assert!(!n.matches("xnameForThisBean"));
    let r = Pattern::from_string(".*Service$").unwrap();
    assert!(r.matches("com.example.OrderService"));
}

use java_analyzer_provider::buildtool::detector::{detect_build_tool, BuildTool, PathProbe};
use java_analyzer_provider::buildtool::gradle::{GradleDependency, GradleResolver};
use java_analyzer_provider::buildtool::maven::MavenPom;
use java_analyzer_provider::java_graph::query::{LocationType, Pattern, PatternCache, QueryEngine, QueryFilters, ReferencedQuery};
use java_analyzer_provider::java_graph::type_resolver::TypeResolver;
use java_analyzer_provider::provider::java::{
    compare_versions, evaluate_dependency_condition, version_in_range, DependencyCondition, JavaProviderState,
    ProviderConfig, SourceFile,
};
use java_analyzer_provider::strmap::StrMap;

#[test]
fn read_after_write_in_a_string_map() {
    let mut m: StrMap<u32> = StrMap::new();
    m.insert("a".to_string(), 1);
    m.insert("b".to_string(), 2);
    m.insert("a".to_string(), 3);
    assert_eq!(m.get("a"), Some(&3));
    assert_eq!(m.get("b"), Some(&2));
    assert_eq!(m.get("c"), None);
    assert_eq!(m.len(), 2);
    assert_eq!(m.keys(), vec!["a".to_string(), "b".to_string()]);
}

#[test]
fn gradle_identifier_reads_back() {
    let d = GradleDependency {
        group: "org.slf4j".to_string(),
        name: "slf4j-api".to_string(),
        version: Some("1.7.36".to_string()),
        configuration: Some("implementation".to_string()),
    };
    let back = GradleResolver::new("build.gradle".to_string()).parse_coordinate(&d.to_identifier()).unwrap();
    assert_eq!(back.group, d.group);
    assert_eq!(back.name, d.name);
    assert_eq!(back.version, d.version);
    assert_eq!(back.configuration, None);
}

#[test]
fn version_order_laws_on_examples() {
    let vs = ["1", "1.0", "1.2", "1.10", "2.0.1", "x.3", ""];
    for a in vs {
        assert_eq!(compare_versions(a, a), 0);
        for b in vs {
            assert_eq!(compare_versions(a, b), -compare_versions(b, a));
            for c in vs {
                if compare_versions(a, b) <= 0 && compare_versions(b, c) <= 0 {
                    assert!(compare_versions(a, c) <= 0);
                }
            }
        }
    }
    assert!(version_in_range("1.2", Some("1.2"), Some("1.10")));
    assert!(version_in_range("1.10", Some("1.2"), Some("1.10")));
}

#[test]
fn cached_and_fresh_patterns_agree() {
    let mut cache = PatternCache::new();
    for text in ["java.util.*", "String", "^a+$", "*Service"] {
        let cached = cache.get_or_compile(text).unwrap();
        let again = cache.get_or_compile(text).unwrap();
        let fresh = Pattern::from_string(text).unwrap();
        for v in ["java.util.List", "String", "aaa", "UserService", "other"] {
            assert_eq!(cached.matches(v), fresh.matches(v));
            assert_eq!(again.matches(v), fresh.matches(v));
        }
    }
    assert_eq!(cache.size(), 4);
}

#[test]
fn not_filtering_keeps_every_result() {
    let mut resolver = TypeResolver::new();
    resolver.analyze_file("src/test/java/ATest.java", "class ATest { void testA() {} }").unwrap();
    resolver.analyze_file("src/main/java/B.java", "class B { void b() {} }").unwrap();
    let engine = QueryEngine::new(resolver);
    let plain = engine.query(&ReferencedQuery {
        pattern: Pattern::from_string("*").unwrap(),
        location: LocationType::Method,
        annotated: None,
        filters: None,
    });
    let kept = engine.query(&ReferencedQuery {
        pattern: Pattern::from_string("*").unwrap(),
        location: LocationType::Method,
        annotated: None,
        filters: Some(QueryFilters::default()),
    });
    assert_eq!(plain, kept);
    let mut f = QueryFilters::default();
    f.exclude_tests = true;
    let without_tests = engine.query(&ReferencedQuery {
        pattern: Pattern::from_string("*").unwrap(),
        location: LocationType::Method,
        annotated: None,
        filters: Some(f),
    });
    assert_eq!(without_tests.len(), 1);
    assert_eq!(without_tests[0].file_path, "src/main/java/B.java");
}

#[test]
fn every_instance_is_found_by_its_id() {
    let mut st = JavaProviderState::new();
    let a = st.init(ProviderConfig { location: "/a".to_string() }, true, Ok(vec![])).unwrap().id;
    let b = st.init(ProviderConfig { location: "/b".to_string() }, true, Ok(vec![])).unwrap().id;
    assert_eq!((a, b), (1, 2));
    for (id, path) in [(a, "/a"), (b, "/b")] {
        match st.get_dependencies(id) {
            java_analyzer_provider::provider::java::DependencyStep::Resolve(p) => assert_eq!(p, path),
            other => panic!("unexpected {:?}", other),
        }
    }
}

#[test]
fn global_index_lists_exactly_the_classes_of_each_name() {
    let mut r = TypeResolver::new();
    r.analyze_file("p/A.java", "package p; class A {} class B {}").unwrap();
    r.analyze_file("q/A.java", "package q; class A {}").unwrap();
    r.build_global_index();
    assert_eq!(r.global_type_index.get("A"), Some(&vec!["p.A".to_string(), "q.A".to_string()]));
    assert_eq!(r.global_type_index.get("B"), Some(&vec!["p.B".to_string()]));
    assert_eq!(r.global_type_index.get("C"), None);
    let once = r.global_type_index.get("A").cloned();
    r.build_global_index();
    assert_eq!(r.global_type_index.get("A").cloned(), once);
    assert_eq!(r.global_type_index.len(), 2);
}

#[test]
fn hierarchy_maps_hold_each_class_resolved() {
    let mut r = TypeResolver::new();
    r.analyze_file(
        "p/C.java",
        "package p; import java.io.Serializable; class Parent {} interface I {} class C extends Parent implements I, Serializable, Missing {} class D extends Missing {}",
    )
    .unwrap();
    r.build_global_index();
    r.build_inheritance_maps();
    assert_eq!(r.get_parent_class("p.C"), Some(&"p.Parent".to_string()));
    assert_eq!(r.get_parent_class("p.D"), None);
    assert_eq!(r.get_parent_class("p.Parent"), None);
    assert_eq!(r.get_interfaces("p.C"), vec!["p.I".to_string(), "java.io.Serializable".to_string()]);
    assert!(r.get_interfaces("p.Parent").is_empty());
    assert!(r.get_interfaces("p.Nothing").is_empty());
}

#[test]
fn annotation_resolution_fills_only_missing_names_and_is_stable() {
    let mut r = TypeResolver::new();
    r.analyze_file(
        "p/S.java",
        "package p; import org.springframework.stereotype.Service; @Service @Unknown class S { @Deprecated void m() {} }",
    )
    .unwrap();
    r.build_global_index();
    r.resolve_annotation_fqdns();
    let fqdns = |r: &TypeResolver| {
        let c = r.file_infos.get("p/S.java").unwrap().classes.get("S").unwrap();
        let mut v: Vec<Option<String>> = c.annotations.iter().map(|a| a.fqdn.clone()).collect();
        v.extend(c.methods[0].annotations.iter().map(|a| a.fqdn.clone()));
        v
    };
    let once = fqdns(&r);
    assert_eq!(once, vec![Some("org.springframework.stereotype.Service".to_string()), None, None]);
    r.resolve_annotation_fqdns();
    assert_eq!(fqdns(&r), once);
}

#[test]
fn maven_wins_and_empty_directories_are_unknown() {
    let probe = |pom: bool, gradle: bool| PathProbe {
        has_pom_xml: pom,
        has_build_gradle: gradle,
        has_build_gradle_kts: false,
        is_file: false,
        file_name: Some("proj".to_string()),
    };
    assert_eq!(detect_build_tool(&probe(true, true)), BuildTool::Maven);
    assert_eq!(detect_build_tool(&probe(false, true)), BuildTool::Gradle);
    assert_eq!(detect_build_tool(&probe(false, false)), BuildTool::Unknown);
}

#[test]
fn pom_keeps_only_the_roots_own_complete_dependencies() {
    let xml = r#"<project>
  <parent><groupId>org.x</groupId><artifactId>base</artifactId></parent>
  <dependencyManagement><dependencies>
    <dependency><groupId>m</groupId><artifactId>managed</artifactId></dependency>
  </dependencies></dependencyManagement>
  <dependencies>
    <dependency><groupId>a</groupId><artifactId>one</artifactId></dependency>
    <dependency><artifactId>nogroup</artifactId></dependency>
    <dependency><groupId>b</groupId><artifactId>two</artifactId></dependency>
  </dependencies>
  <build><plugins><plugin><dependencies>
    <dependency><groupId>p</groupId><artifactId>plugin-dep</artifactId></dependency>
  </dependencies></plugin></plugins></build>
</project>"#;
    let pom = MavenPom::parse_from_string(xml, "pom.xml".to_string()).unwrap();
    let names: Vec<String> = pom.dependencies.iter().map(|d| d.artifact_id.clone()).collect();
    assert_eq!(names, vec!["one".to_string(), "two".to_string()]);
    assert!(pom.parent.is_none());
}

#[test]
fn every_dependency_incident_is_declared_and_in_range() {
    let pom = "<project>\n<dependencies>\n<dependency>\n<groupId>junit</groupId>\n<artifactId>junit</artifactId>\n<version>4.12</version>\n</dependency>\n<dependency>\n<groupId>junit</groupId>\n<artifactId>junit</artifactId>\n<version>5.1</version>\n</dependency>\n</dependencies>\n</project>\n";
    let cond = DependencyCondition { name: "junit.junit".to_string(), lowerbound: None, upperbound: Some("4.99".to_string()) };
    let poms = vec![SourceFile { path: "/p/pom.xml".to_string(), content: Some(pom.to_string()) }];
    let r = evaluate_dependency_condition(&cond, &poms, &vec![]);
    let incidents = r.response.unwrap().incidents;
    assert_eq!(incidents.len(), 1);
    assert_eq!(incidents[0].file_uri, "file:///p/pom.xml");
    assert!(incidents[0].variables.contains(&("version".to_string(), "4.12".to_string())));
}

#[test]
fn field_results_match_types_never_names() {
    let mut r = TypeResolver::new();
    r.analyze_file(
        "p/A.java",
        "package p; import java.util.List; class A { private String List; private List items; private int count; }",
    )
    .unwrap();
    r.build_global_index();
    let engine = QueryEngine::new(r);
    let results = engine.query(&ReferencedQuery {
        pattern: Pattern::from_string("java.util.List").unwrap(),
        location: LocationType::Field,
        annotated: None,
        filters: None,
    });
    assert_eq!(results.len(), 1);
    assert_eq!(results[0].symbol, "items: List");
    assert_eq!(results[0].fqdn, Some("java.util.List".to_string()));
}

#[test]
fn method_results_match_qualified_or_plain_names() {
    let mut r = TypeResolver::new();
    r.analyze_file("p/A.java", "package p; class A { void run() {} void stop() {} } class B { void run() {} }").unwrap();
    let engine = QueryEngine::new(r);
    let q = |text: &str| {
        engine.query(&ReferencedQuery {
            pattern: Pattern::from_string(text).unwrap(),
            location: LocationType::Method,
            annotated: None,
            filters: None,
        })
    };
    assert_eq!(q("run").len(), 2);
    let a = q("A.run");
    assert_eq!(a.len(), 1);
    assert_eq!(a[0].fqdn, Some("p.A.run".to_string()));
    assert_eq!(q("p.B.run").len(), 1);
    assert_eq!(q("p.A.*").len(), 2);
}

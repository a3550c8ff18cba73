use java_analyzer_provider::buildtool::detector::BuildTool;
use java_analyzer_provider::buildtool::gradle::GradleDependency;
use java_analyzer_provider::buildtool::maven::MavenDependency;
use java_analyzer_provider::java_graph::query::{LocationType, QueryResult};
use java_analyzer_provider::provider::dependency_lines::{
    dependency_from_captures, gradle_dependencies_with_lines, maven_dependencies_with_lines,
};
use java_analyzer_provider::provider::java::{
    annotation_filter_of, capability_names, code_snip, compare_versions, create_dependency_incident,
    default_location, dependency_response, get_dependencies_dag, evaluate_dependency_condition, extract_code_snippet,
    gradle_file_dependencies, gradle_resolver_for, has_java_extension, maven_file_dependencies,
    parse_location_type, parse_u32, results_to_incidents, version_in_range, AnnotatedCondition,
    AnnotationElement, ConditionWrapper, DependencyCondition, DependencyStep, EvaluateStep,
    JavaProviderState, NotifyStep, ProviderConfig, ReferencedCondition, SourceFile,
};

#[test]
fn parses_u32_like_std() {
    assert_eq!(parse_u32("42"), Some(42));
    assert_eq!(parse_u32("+7"), Some(7));
    assert_eq!(parse_u32("007"), Some(7));
    assert_eq!(parse_u32("4294967295"), Some(4294967295));
    assert_eq!(parse_u32("4294967296"), None);
    assert_eq!(parse_u32(""), None);
    assert_eq!(parse_u32("+"), None);
    assert_eq!(parse_u32("-1"), None);
    assert_eq!(parse_u32("1a"), None);
    assert_eq!(parse_u32(" 1"), None);
    for s in ["0", "12", "+3", "99999", "x", "", "1.2"] {
        assert_eq!(parse_u32(s), s.parse::<u32>().ok());
    }
}

#[test]
fn compares_versions_part_by_part() {
    assert_eq!(compare_versions("1.2.3", "1.2.3"), 0);
    assert_eq!(compare_versions("1.2", "1.10"), -1);
    assert_eq!(compare_versions("2.0", "1.99.99"), 1);
    assert_eq!(compare_versions("1.0", "1"), 0);
    assert_eq!(compare_versions("1.0.1", "1"), 1);
    assert_eq!(compare_versions("4.13-beta.2", "4.2"), 0);
    assert_eq!(compare_versions("4.13-beta.3", "4.2"), 1);
    assert_eq!(compare_versions("", "0.0"), 0);
}

#[test]
fn version_bounds_are_inclusive() {
    assert!(version_in_range("4.12", Some("4.12"), Some("4.13")));
    assert!(version_in_range("4.13", Some("4.12"), Some("4.13")));
    assert!(!version_in_range("4.11", Some("4.12"), None));
    assert!(!version_in_range("5.0", None, Some("4.13")));
    assert!(version_in_range("1.0", None, None));
}

#[test]
fn location_names() {
    assert_eq!(default_location(), "TYPE");
    assert_eq!(parse_location_type("TYPE"), Ok(LocationType::Type));
    assert_eq!(parse_location_type("type"), Ok(LocationType::Type));
    assert_eq!(parse_location_type("Class"), Ok(LocationType::Class));
    assert_eq!(parse_location_type("class"), Ok(LocationType::Class));
    assert_eq!(parse_location_type("Import"), Ok(LocationType::Import));
    assert_eq!(parse_location_type("METHOD_CALL"), Ok(LocationType::MethodCall));
    assert_eq!(parse_location_type("fieldDeclaration"), Ok(LocationType::Field));
    assert_eq!(parse_location_type("implements_type"), Ok(LocationType::ImplementsType));
    assert_eq!(parse_location_type("variable_declaration"), Ok(LocationType::Variable));
    assert_eq!(parse_location_type("returntype"), Ok(LocationType::ReturnType));
    assert_eq!(parse_location_type("bogus"), Err("Unknown location type: bogus".to_string()));
}

#[test]
fn annotation_filter_keeps_last_value() {
    let c = AnnotatedCondition {
        pattern: Some("javax.inject.Inject".to_string()),
        elements: vec![
            AnnotationElement { name: "a".to_string(), value: "1".to_string() },
            AnnotationElement { name: "b".to_string(), value: "2".to_string() },
            AnnotationElement { name: "a".to_string(), value: "3".to_string() },
        ],
    };
    let f = annotation_filter_of(&c);
    assert_eq!(f.pattern, Some("javax.inject.Inject".to_string()));
    assert_eq!(f.elements.len(), 2);
    assert_eq!(f.elements.get("a"), Some(&"3".to_string()));
    assert_eq!(f.elements.get("b"), Some(&"2".to_string()));
}

#[test]
fn incidents_of_results() {
    let results = vec![QueryResult {
        file_path: "/src/A.java".to_string(),
        line_number: 3,
        column: 7,
        symbol: "A".to_string(),
        fqdn: None,
    }];
    let inc = results_to_incidents(results);
    assert_eq!(inc.len(), 1);
    assert_eq!(inc[0].file_uri, "file:///src/A.java");
    assert_eq!(inc[0].line_number, 3);
    assert_eq!(inc[0].code_location, Some((3, 7)));
    assert!(!inc[0].is_dependency_incident);

    let d = create_dependency_incident("/p/pom.xml", 12, "junit.junit", "4.12");
    assert_eq!(d.file_uri, "file:///p/pom.xml");
    assert_eq!(d.line_number, 12);
    assert_eq!(d.code_location, None);
    assert_eq!(
        d.variables,
        vec![("name".to_string(), "junit.junit".to_string()), ("version".to_string(), "4.12".to_string())]
    );
    assert!(d.is_dependency_incident);
}

const POM: &str = r#"<project>
  <properties>
    <junit.version>4.12</junit.version>
  </properties>
  <dependencies>
    <dependency>
      <groupId>junit</groupId>
      <artifactId>junit</artifactId>
      <version>${junit.version}</version>
    </dependency>
    <dependency>
      <groupId>org.slf4j</groupId>
      <artifactId>slf4j-api</artifactId>
    </dependency>
  </dependencies>
</project>
"#;

#[test]
fn pom_dependencies_with_lines() {
    let deps = maven_dependencies_with_lines("pom.xml", POM);
    assert_eq!(deps.len(), 2);
    assert_eq!(deps[0].0.group_id, "junit");
    assert_eq!(deps[0].0.version, Some("4.12".to_string()));
    // the line the reader stood on before the `<dependency>` tag
    assert_eq!(deps[0].1, 5);
    assert_eq!(deps[1].0.artifact_id, "slf4j-api");
    assert_eq!(deps[1].0.version, None);
    assert_eq!(deps[1].1, 10);
}

const GRADLE: &str = "plugins {}\ndependencies {\n    implementation 'org.slf4j:slf4j-api:1.7.36'\n    testImplementation \"junit:junit:4.13.2\"\n    compileOnly 'x:y:1'\n}\n";

#[test]
fn gradle_dependencies_with_line_numbers() {
    let deps = gradle_dependencies_with_lines(GRADLE).unwrap();
    assert_eq!(deps.len(), 2);
    assert_eq!(deps[0].0.group_id, "org.slf4j");
    assert_eq!(deps[0].0.version, Some("1.7.36".to_string()));
    assert_eq!(deps[0].1, 3);
    assert_eq!(deps[1].0.artifact_id, "junit");
    assert_eq!(deps[1].1, 4);
}

#[test]
fn captures_name_a_dependency() {
    let caps = Some(vec![
        Some("implementation 'a:b:1'".to_string()),
        Some("a".to_string()),
        Some("b".to_string()),
        Some("1".to_string()),
    ]);
    let d = dependency_from_captures(&caps).unwrap();
    assert_eq!((d.group_id.as_str(), d.artifact_id.as_str()), ("a", "b"));
    assert_eq!(d.version, Some("1".to_string()));
    let empty_group = Some(vec![Some("x".to_string()), Some(String::new()), Some("b".to_string())]);
    assert!(dependency_from_captures(&empty_group).is_none());
    assert!(dependency_from_captures(&None).is_none());
}

#[test]
fn dependency_condition_matches_name_and_range() {
    let cond = DependencyCondition {
        name: "junit.junit".to_string(),
        lowerbound: Some("4.0".to_string()),
        upperbound: Some("4.12".to_string()),
    };
    let poms = vec![
        SourceFile { path: "/p/pom.xml".to_string(), content: Some(POM.to_string()) },
        SourceFile { path: "/p/missing/pom.xml".to_string(), content: None },
    ];
    let gradles = vec![SourceFile {
        path: "/g/build.gradle".to_string(),
        content: Some("dependencies {\n  testImplementation 'junit:junit:4.13.2'\n  testCompile 'junit:junit:4.10'\n}\n".to_string()),
    }];
    let r = evaluate_dependency_condition(&cond, &poms, &gradles);
    assert!(r.successful);
    assert!(r.error.is_empty());
    let res = r.response.unwrap();
    assert!(res.matched);
    assert_eq!(res.incidents.len(), 2);
    assert_eq!(res.incidents[0].file_uri, "file:///p/pom.xml");
    assert_eq!(res.incidents[0].line_number, 5);
    assert_eq!(res.incidents[1].file_uri, "file:///g/build.gradle");
    assert_eq!(res.incidents[1].line_number, 3);

    let none = DependencyCondition { name: "org.other.lib".to_string(), lowerbound: None, upperbound: None };
    let r = evaluate_dependency_condition(&none, &poms, &gradles);
    let res = r.response.unwrap();
    assert!(!res.matched);
    assert!(res.incidents.is_empty());
}

#[test]
fn java_extensions() {
    assert!(has_java_extension("/a/b/Test.java"));
    assert!(has_java_extension("Test.java"));
    assert!(has_java_extension("./x/Y.java/"));
    assert!(!has_java_extension("/a/.java"));
    assert!(!has_java_extension("/a/Test.javax"));
    assert!(!has_java_extension("/a/Test"));
    assert!(!has_java_extension("/a/b/.."));
    assert!(!has_java_extension("/"));
    for p in ["/a/b/Test.java", "a.b/c", "x/.java", "x/y.java/.", "..", "a/..", "T.JAVA", "a..java"] {
        let expected = std::path::Path::new(p).extension().map_or(false, |e| e == "java");
        assert_eq!(has_java_extension(p), expected, "{}", p);
    }
}

fn sample_state() -> (JavaProviderState, i64) {
    let mut st = JavaProviderState::new();
    let files = vec![SourceFile {
        path: "/proj/src/main/java/com/example/Test.java".to_string(),
        content: Some("package com.example;\nimport java.util.List;\npublic class Test {\n  private List items;\n}\n".to_string()),
    }];
    let resp = st.init(ProviderConfig { location: "/proj".to_string() }, true, Ok(files)).unwrap();
    assert!(resp.successful);
    assert!(resp.error.is_empty());
    (st, resp.id)
}

#[test]
fn init_hands_out_ids() {
    let mut st = JavaProviderState::new();
    assert_eq!(st.next_instance_id(), 1);
    assert!(!st.has_type_resolver());
    let r = st.init(ProviderConfig { location: "/nope".to_string() }, false, Ok(vec![])).unwrap();
    assert!(!r.successful);
    assert_eq!(r.error, "Source path does not exist: /nope");
    assert_eq!(r.id, 0);
    assert_eq!(st.next_instance_id(), 1);

    let r = st.init(ProviderConfig { location: "/p".to_string() }, true, Ok(vec![])).unwrap();
    assert!(r.successful);
    assert_eq!(r.id, 1);
    assert_eq!(r.builtin_config.unwrap().location, "/p");
    assert!(st.has_type_resolver());

    let e = st.init(ProviderConfig { location: "/q".to_string() }, true, Err("denied".to_string()));
    assert_eq!(e.unwrap_err(), "Failed to find Java files: denied");
    assert_eq!(st.next_instance_id(), 3);
    assert!(!st.has_type_resolver());
}

fn referenced(pattern: &str, location: &str) -> ConditionWrapper {
    ConditionWrapper {
        rule_id: "r".to_string(),
        referenced: Some(ReferencedCondition { pattern: pattern.to_string(), location: location.to_string(), annotated: None }),
        dependency: None,
    }
}

#[test]
fn evaluate_referenced_condition() {
    let (mut st, id) = sample_state();
    match st.evaluate(id, Ok(referenced("java.util.List", "import"))) {
        EvaluateStep::Query(q) => {
            assert_eq!(q.location, LocationType::Import);
            let r = st.run_query(&q);
            assert!(r.successful);
            let res = r.response.unwrap();
            assert!(res.matched);
            assert_eq!(res.incidents.len(), 1);
            assert_eq!(res.incidents[0].file_uri, "file:///proj/src/main/java/com/example/Test.java");
            assert_eq!(res.incidents[0].line_number, 0);
        },
        other => panic!("unexpected step {:?}", other),
    }
    match st.evaluate(id, Ok(referenced("java.util.Map", "import"))) {
        EvaluateStep::Query(q) => {
            let r = st.run_query(&q);
            assert!(r.successful);
            assert!(!r.response.unwrap().matched);
        },
        other => panic!("unexpected step {:?}", other),
    }
}

fn failure_of(step: EvaluateStep) -> String {
    match step {
        EvaluateStep::Reply(r) => {
            assert!(!r.successful);
            assert!(r.response.is_none());
            r.error
        },
        other => panic!("expected a reply, got {:?}", other),
    }
}

#[test]
fn evaluate_failures() {
    let (st, id) = sample_state();
    assert_eq!(failure_of(st.evaluate(99, Ok(referenced("x", "import")))), "Unknown instance ID: 99");
    assert_eq!(failure_of(st.evaluate(-5, Ok(referenced("x", "import")))), "Unknown instance ID: -5");
    assert_eq!(failure_of(st.evaluate(id, Err("bad yaml".to_string()))), "Failed to parse condition: bad yaml");
    let neither = ConditionWrapper { rule_id: "r".to_string(), referenced: None, dependency: None };
    assert_eq!(failure_of(st.evaluate(id, Ok(neither))), "No referenced or dependency condition found");
    assert_eq!(
        failure_of(st.evaluate(id, Ok(referenced("x", "nowhere")))),
        "Invalid location type: Unknown location type: nowhere"
    );
    assert_eq!(
        failure_of(st.evaluate(id, Ok(referenced("java.(util", "import")))),
        "Invalid pattern: Invalid regex pattern: java.(util"
    );
}

#[test]
fn evaluate_dependency_step() {
    let (st, id) = sample_state();
    let c = ConditionWrapper {
        rule_id: "r".to_string(),
        referenced: Some(ReferencedCondition { pattern: "x".to_string(), location: "TYPE".to_string(), annotated: None }),
        dependency: Some(DependencyCondition { name: "junit.junit".to_string(), lowerbound: None, upperbound: None }),
    };
    match st.evaluate(id, Ok(c)) {
        EvaluateStep::Dependency(d, path) => {
            assert_eq!(d.name, "junit.junit");
            assert_eq!(path, "/proj");
        },
        other => panic!("unexpected step {:?}", other),
    }
}

#[test]
fn notify_changes() {
    let st = JavaProviderState::new();
    match st.changed_java_files(&vec!["file:///a/B.java".to_string()]) {
        NotifyStep::Reply(e) => assert_eq!(e, "No provider instances initialized"),
        other => panic!("unexpected {:?}", other),
    }
    let (mut st, _) = sample_state();
    match st.changed_java_files(&vec!["file:///a/B.txt".to_string(), "http://x/C.java".to_string()]) {
        NotifyStep::Reply(e) => assert!(e.is_empty()),
        other => panic!("unexpected {:?}", other),
    }
    let uris = vec!["file:///a/B.java".to_string(), "file:///a/readme.md".to_string(), "file:///c/D.java".to_string()];
    match st.changed_java_files(&uris) {
        NotifyStep::Reanalyze(paths) => {
            assert_eq!(paths, vec!["/a/B.java".to_string(), "/c/D.java".to_string()]);
            let files = vec![
                SourceFile { path: paths[0].clone(), content: Some("package a; class B {}".to_string()) },
                SourceFile { path: paths[1].clone(), content: None },
            ];
            assert!(st.reanalyze(&files).is_empty());
        },
        other => panic!("unexpected {:?}", other),
    }
    match st.evaluate(1, Ok(referenced("a.B", "class"))) {
        EvaluateStep::Query(q) => assert_eq!(st.run_query(&q).response.unwrap().incidents.len(), 1),
        other => panic!("unexpected {:?}", other),
    }
}

#[test]
fn dependencies_requests() {
    let (st, id) = sample_state();
    match st.get_dependencies(id) {
        DependencyStep::Resolve(p) => assert_eq!(p, "/proj"),
        other => panic!("unexpected {:?}", other),
    }
    match st.get_dependencies(7) {
        DependencyStep::Reply(r) => {
            assert!(!r.successful);
            assert_eq!(r.error, "Unknown instance ID: 7");
        },
        other => panic!("unexpected {:?}", other),
    }

    let md = MavenDependency {
        group_id: "junit".to_string(),
        artifact_id: "junit".to_string(),
        version: Some("4.12".to_string()),
        scope: None,
        classifier: None,
        type_: None,
        optional: false,
    };
    let fds = maven_file_dependencies(&vec![
        ("/p/pom.xml".to_string(), Some(vec![md])),
        ("/p/bad/pom.xml".to_string(), None),
    ]);
    assert_eq!(fds.len(), 1);
    assert_eq!(fds[0].file_uri, "file:///p/pom.xml");
    let d = &fds[0].deps[0];
    assert_eq!(d.name, "junit");
    assert_eq!(d.version, "4.12");
    assert_eq!(d.dep_type, "jar");
    assert_eq!(d.resolved_identifier, "junit:junit:4.12");
    assert_eq!(d.file_uri_prefix, "file:///p/pom.xml");
    assert!(d.labels.is_empty());

    let gd = GradleDependency {
        group: "org.slf4j".to_string(),
        name: "slf4j-api".to_string(),
        version: None,
        configuration: Some("implementation".to_string()),
    };
    let gfds = gradle_file_dependencies(&vec![("/g/build.gradle".to_string(), Some(vec![gd]))]);
    let g = &gfds[0].deps[0];
    assert_eq!(g.name, "org.slf4j.slf4j-api");
    assert_eq!(g.version, "");
    assert_eq!(g.resolved_identifier, "org.slf4j:slf4j-api");
    assert_eq!(g.labels, vec!["implementation".to_string()]);

    let ok = dependency_response(BuildTool::Maven, Ok(fds));
    assert!(ok.successful && ok.error.is_empty() && ok.file_deps.len() == 1);
    let err = dependency_response(BuildTool::Gradle, Err("boom".to_string()));
    assert!(!err.successful);
    assert_eq!(err.error, "Failed to resolve Gradle dependencies: boom");
    let err = dependency_response(BuildTool::Maven, Err("boom".to_string()));
    assert_eq!(err.error, "Failed to resolve Maven dependencies: boom");
    let none = dependency_response(BuildTool::Unknown, Err("ignored".to_string()));
    assert!(none.successful && none.file_deps.is_empty());

    assert_eq!(gradle_resolver_for("b.gradle".to_string(), true).gradle_cmd(), "./gradlew");
    assert_eq!(gradle_resolver_for("b.gradle".to_string(), false).gradle_cmd(), "gradle");
}

#[test]
fn capabilities_offered() {
    assert_eq!(capability_names(), vec!["referenced".to_string(), "java".to_string(), "dependency".to_string()]);
}

#[test]
fn snippets() {
    let content = "a\nb\nc\nd\ne\nf\ng\nh\n";
    assert_eq!(extract_code_snippet(content, 3, 1, 1), "      2 | b\n>>>   3 | c\n      4 | d\n");
    assert_eq!(extract_code_snippet(content, 1, 2, 0), ">>>   1 | a\n");
    assert_eq!(
        code_snip(content, 2),
        "       1 | a\n>>>    2 | b\n       3 | c\n       4 | d\n       5 | e\n       6 | f"
    );
}

#[test]
fn progress_and_dag() {
    let (st, _) = sample_state();
    let p = st.prepare_progress();
    assert_eq!(p.event_type, 0);
    assert_eq!(p.provider_name, "java");
    assert_eq!(p.total_files, 1);
    assert_eq!(p.files_processed, 1);
    let dag = get_dependencies_dag();
    assert!(dag.successful && dag.error.is_empty() && dag.file_dag_deps.is_empty());
}

#[test]
fn test_evaluate_without_init() {
    let st = JavaProviderState::new();
    let step = st.evaluate(1, Ok(referenced("List", "import")));
    let error = failure_of(step);
    assert!(error.contains("not initialized"));
}

#[test]
fn test_dependency_resolution_before_init() {
    let st = JavaProviderState::new();
    match st.get_dependencies(1) {
        DependencyStep::Reply(r) => {
            assert!(!r.successful);
            assert!(r.error.contains("not initialized"));
            assert!(r.file_deps.is_empty());
        },
        other => panic!("unexpected {:?}", other),
    }
}

#[test]
fn dependency_lines_take_the_last_text_run() {
    let pom = "<project>\n<dependencies>\n<dependency>\n<groupId>org&amp;co</groupId>\n<artifactId>lib</artifactId>\n<version>1.0<!--x-->.1</version>\n</dependency>\n</dependencies>\n</project>\n";
    let deps = maven_dependencies_with_lines("pom.xml", pom);
    assert_eq!(deps.len(), 1);
    assert_eq!(deps[0].0.group_id, "org&co");
    assert_eq!(deps[0].0.artifact_id, "lib");
    assert_eq!(deps[0].0.version, Some(".1".to_string()));
}

#[test]
fn unknown_instance_ids_are_written_in_decimal() {
    let (st, _) = sample_state();
    assert_eq!(failure_of(st.evaluate(i64::MIN, Ok(referenced("x", "import")))), "Unknown instance ID: -9223372036854775808");
    assert_eq!(failure_of(st.evaluate(i64::MAX, Ok(referenced("x", "import")))), "Unknown instance ID: 9223372036854775807");
    assert_eq!(failure_of(st.evaluate(0, Ok(referenced("x", "import")))), "Unknown instance ID: 0");
    assert_eq!(failure_of(st.evaluate(1230, Ok(referenced("x", "import")))), "Unknown instance ID: 1230");
}

use java_analyzer_provider::buildtool::detector::{detect_build_tool, BuildTool, PathProbe};
use java_analyzer_provider::buildtool::gradle::{GradleDependency, GradleResolver};
use java_analyzer_provider::buildtool::maven::{MavenDependency, MavenPom, MavenResolver};

#[test]
fn test_parse_compact_dependency() {
    let resolver = GradleResolver::new("build.gradle".to_string());

    let line = "    implementation 'junit:junit:4.13.2'";
    let dep = resolver.parse_compact_dependency(line).unwrap();

    assert_eq!(dep.group, "junit");
    assert_eq!(dep.name, "junit");
    assert_eq!(dep.version, Some("4.13.2".to_string()));
    assert_eq!(dep.configuration, Some("implementation".to_string()));
}

#[test]
fn test_parse_coordinate() {
    let resolver = GradleResolver::new("build.gradle".to_string());

    let coord = "org.springframework.boot:spring-boot-starter-web:2.7.0";
    let dep = resolver.parse_coordinate(coord).unwrap();

    assert_eq!(dep.group, "org.springframework.boot");
    assert_eq!(dep.name, "spring-boot-starter-web");
    assert_eq!(dep.version, Some("2.7.0".to_string()));
}

#[test]
fn gradle_test_dependency_to_identifier() {
    let dep = GradleDependency {
        group: "junit".to_string(),
        name: "junit".to_string(),
        version: Some("4.13.2".to_string()),
        configuration: Some("testImplementation".to_string()),
    };

    assert_eq!(dep.to_identifier(), "junit:junit:4.13.2");
    assert_eq!(dep.artifact_name(), "junit");
}

#[test]
fn test_extract_dependencies_from_source() {
    let resolver = GradleResolver::new("build.gradle".to_string());

    let content = r#"
dependencies {
    implementation 'org.springframework.boot:spring-boot-starter-web:2.7.0'
    testImplementation 'junit:junit:4.13.2'
    compileOnly "org.projectlombok:lombok:1.18.24"
}
"#;

    let deps = resolver.extract_dependencies_from_source(content);

    assert_eq!(deps.len(), 3);
    assert_eq!(deps[0].group, "org.springframework.boot");
    assert_eq!(deps[1].group, "junit");
    assert_eq!(deps[2].group, "org.projectlombok");
}

#[test]
fn test_parse_simple_pom() {
    let xml = r#"<?xml version="1.0" encoding="UTF-8"?>
<project xmlns="http://maven.apache.org/POM/4.0.0">
    <modelVersion>4.0.0</modelVersion>
    <groupId>com.example</groupId>
    <artifactId>my-app</artifactId>
    <version>1.0.0</version>
    <packaging>jar</packaging>

    <dependencies>
        <dependency>
            <groupId>junit</groupId>
            <artifactId>junit</artifactId>
            <version>4.13.2</version>
            <scope>test</scope>
        </dependency>
    </dependencies>
</project>"#;

    let pom = MavenPom::parse_from_string(xml, "pom.xml".to_string()).unwrap();

    assert_eq!(pom.group_id, Some("com.example".to_string()));
    assert_eq!(pom.artifact_id, Some("my-app".to_string()));
    assert_eq!(pom.version, Some("1.0.0".to_string()));
    assert_eq!(pom.packaging, Some("jar".to_string()));
    assert_eq!(pom.dependencies.len(), 1);

    let dep = &pom.dependencies[0];
    assert_eq!(dep.group_id, "junit");
    assert_eq!(dep.artifact_id, "junit");
    assert_eq!(dep.version, Some("4.13.2".to_string()));
    assert_eq!(dep.scope, Some("test".to_string()));
}

#[test]
fn test_parse_pom_with_parent() {
    let xml = r#"<?xml version="1.0" encoding="UTF-8"?>
<project xmlns="http://maven.apache.org/POM/4.0.0">
    <modelVersion>4.0.0</modelVersion>

    <parent>
        <groupId>org.springframework.boot</groupId>
        <artifactId>spring-boot-starter-parent</artifactId>
        <version>2.7.0</version>
    </parent>

    <groupId>com.example</groupId>
    <artifactId>my-app</artifactId>
    <version>1.0.0</version>
</project>"#;

    let pom = MavenPom::parse_from_string(xml, "pom.xml".to_string()).unwrap();

    assert!(pom.parent.is_some());
    let parent = pom.parent.unwrap();
    assert_eq!(parent.group_id, "org.springframework.boot");
    assert_eq!(parent.artifact_id, "spring-boot-starter-parent");
    assert_eq!(parent.version, "2.7.0");
}

#[test]
fn maven_test_dependency_to_identifier() {
    let dep = MavenDependency {
        group_id: "junit".to_string(),
        artifact_id: "junit".to_string(),
        version: Some("4.13.2".to_string()),
        scope: Some("test".to_string()),
        classifier: None,
        type_: None,
        optional: false,
    };

    assert_eq!(dep.to_identifier(), "junit:junit:4.13.2");
    assert_eq!(dep.name(), "junit");
}

fn probe(pom: bool, gradle: bool, kts: bool, is_file: bool, name: Option<&str>) -> PathProbe {
    PathProbe {
        has_pom_xml: pom,
        has_build_gradle: gradle,
        has_build_gradle_kts: kts,
        is_file,
        file_name: name.map(|n| n.to_string()),
    }
}

#[test]
fn detects_maven_directory_and_pom_file() {
    assert_eq!(detect_build_tool(&probe(true, false, false, false, Some("proj"))), BuildTool::Maven);
    assert_eq!(detect_build_tool(&probe(true, true, false, false, Some("proj"))), BuildTool::Maven);
    assert_eq!(detect_build_tool(&probe(false, false, false, true, Some("pom.xml"))), BuildTool::Maven);
}

#[test]
fn detects_gradle_directory_and_build_files() {
    assert_eq!(detect_build_tool(&probe(false, true, false, false, Some("proj"))), BuildTool::Gradle);
    assert_eq!(detect_build_tool(&probe(false, false, true, false, Some("proj"))), BuildTool::Gradle);
    assert_eq!(detect_build_tool(&probe(false, false, false, true, Some("build.gradle"))), BuildTool::Gradle);
    assert_eq!(detect_build_tool(&probe(false, false, false, true, Some("build.gradle.kts"))), BuildTool::Gradle);
}

#[test]
fn detects_nothing_elsewhere() {
    assert_eq!(detect_build_tool(&probe(false, false, false, false, Some("proj"))), BuildTool::Unknown);
    assert_eq!(detect_build_tool(&probe(false, false, false, false, Some("pom.xml"))), BuildTool::Unknown);
    assert_eq!(detect_build_tool(&probe(false, false, false, true, Some("Main.java"))), BuildTool::Unknown);
    assert_eq!(detect_build_tool(&probe(false, false, false, true, None)), BuildTool::Unknown);
}

#[test]
fn map_dependency_and_missing_version() {
    let resolver = GradleResolver::new("build.gradle".to_string());
    let dep = resolver
        .parse_map_dependency("    implementation group: 'com.google.guava', name: 'guava', version: '31.1-jre'")
        .unwrap();
    assert_eq!(dep.group, "com.google.guava");
    assert_eq!(dep.name, "guava");
    assert_eq!(dep.version, Some("31.1-jre".to_string()));
    assert_eq!(dep.configuration, Some("implementation".to_string()));

    let two = resolver.parse_coordinate("junit:junit").unwrap();
    assert_eq!(two.version, None);
    assert_eq!(two.to_identifier(), "junit:junit");
    assert!(resolver.parse_coordinate("junit").is_none());
}

#[test]
fn gradle_resolver_commands() {
    let r = GradleResolver::new("app/build.gradle".to_string());
    assert_eq!(r.gradle_cmd(), "gradle");
    assert_eq!(r.build_file(), "app/build.gradle");
    let r = r.with_gradle_cmd("./gradlew".to_string());
    assert_eq!(r.gradle_cmd(), "./gradlew");
    assert_eq!(r.build_file(), "app/build.gradle");
}

#[test]
fn gradle_dependencies_output() {
    let resolver = GradleResolver::new("build.gradle".to_string());
    let output = "compileClasspath\n+--- org.springframework:spring-core:5.3.20\n\\--- junit:junit:4.13.2 -> 4.13.2\n";
    let deps = resolver.parse_dependencies_output(output);
    assert!(deps.iter().any(|d| d.group == "org.springframework" && d.name == "spring-core"));
    assert!(deps.iter().any(|d| d.group == "junit" && d.name == "junit"));
}

#[test]
fn pom_properties_resolve_versions() {
    let xml = r#"<project>
  <properties>
    <junit.version>4.13.2</junit.version>
  </properties>
  <dependencies>
    <dependency>
      <groupId>junit</groupId>
      <artifactId>junit</artifactId>
      <version>${junit.version}</version>
    </dependency>
  </dependencies>
</project>"#;
    let pom = MavenPom::parse_from_string(xml, "pom.xml".to_string()).unwrap();
    assert_eq!(pom.resolve_version("${junit.version}"), "4.13.2");
    assert_eq!(pom.resolve_version("${missing}"), "${missing}");
    assert_eq!(pom.resolve_version("1.0"), "1.0");
}

#[test]
fn maven_coordinates_and_tree() {
    let resolver = MavenResolver::new("pom.xml".to_string());
    assert_eq!(resolver.maven_cmd(), "mvn");
    let dep = resolver.parse_dependency_coordinate("junit:junit:jar:4.13.2:test").unwrap();
    assert_eq!(dep.group_id, "junit");
    assert_eq!(dep.artifact_id, "junit");
    assert_eq!(dep.version, Some("4.13.2".to_string()));
    assert_eq!(dep.scope, Some("test".to_string()));
    assert!(resolver.parse_dependency_coordinate("junit:junit:4.13.2").is_none());

    let tree = "[INFO] com.example:app:jar:1.0\n[INFO] +- junit:junit:jar:4.13.2:test\n[INFO] |  \\- org.hamcrest:hamcrest-core:jar:1.3:test\n";
    let deps = resolver.parse_dependency_tree(tree);
    assert!(deps.iter().any(|d| d.artifact_id == "junit"));
    assert!(deps.iter().any(|d| d.artifact_id == "hamcrest-core"));
}

#[test]
fn maven_identifier_without_version() {
    let dep = MavenDependency {
        group_id: "g".to_string(),
        artifact_id: "a".to_string(),
        version: None,
        scope: None,
        classifier: None,
        type_: None,
        optional: false,
    };
    assert_eq!(dep.to_identifier(), "g:a");
}

#[test]
fn test_detect_maven() {
    // A directory holding pom.xml, then the pom.xml file itself.
    assert_eq!(detect_build_tool(&probe(true, false, false, false, Some(".tmpA1b2C3"))), BuildTool::Maven);
    assert_eq!(detect_build_tool(&probe(false, false, false, true, Some("pom.xml"))), BuildTool::Maven);
}

#[test]
fn test_detect_gradle() {
    // A directory holding build.gradle, then the build.gradle file itself.
    assert_eq!(detect_build_tool(&probe(false, true, false, false, Some(".tmpA1b2C3"))), BuildTool::Gradle);
    assert_eq!(detect_build_tool(&probe(false, false, false, true, Some("build.gradle"))), BuildTool::Gradle);
}

#[test]
fn test_detect_unknown() {
    // An empty directory.
    assert_eq!(detect_build_tool(&probe(false, false, false, false, Some(".tmpA1b2C3"))), BuildTool::Unknown);
}

#[test]
fn pom_text_with_entity_references_is_unescaped() {
    let xml = r#"<project>
    <groupId>com.acme&amp;co</groupId>
    <artifactId>a&lt;b&gt;</artifactId>
    <version>1.0</version>
</project>"#;
    let pom = MavenPom::parse_from_string(xml, "pom.xml".to_string()).unwrap();
    assert_eq!(pom.group_id, Some("com.acme&co".to_string()));
    assert_eq!(pom.artifact_id, Some("a<b>".to_string()));
    assert_eq!(pom.version, Some("1.0".to_string()));
}

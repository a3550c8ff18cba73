//! Detection of the build tool a project uses.

use vstd::prelude::*;

use crate::text::str_eq;

verus! {

/// The build tool of a project.
#[derive(Debug, Clone, Copy, PartialEq, Eq, Structural)]
pub enum BuildTool {
    Maven,
    Gradle,
    Unknown,
}

/// What the file system shows about a path: which build files sit in it
/// (when it is a directory), whether it is a file, and its file name.
#[derive(Debug, Clone)]
pub struct PathProbe {
    /// `path/pom.xml` exists.
    pub has_pom_xml: bool,
    /// `path/build.gradle` exists.
    pub has_build_gradle: bool,
    /// `path/build.gradle.kts` exists.
    pub has_build_gradle_kts: bool,
    /// The path is a regular file.
    pub is_file: bool,
    /// The last component of the path, if any.
    pub file_name: Option<String>,
}

/// Whether the probed path is a file with the given name.
pub open spec fn is_file_named(p: PathProbe, name: Seq<char>) -> bool {
    p.is_file && (p.file_name matches Some(n) && n@ == name)
}

/// Maven when a `pom.xml` is in the directory, Gradle when a Gradle build
/// file is; failing both, the path itself when it is such a file.
pub open spec fn detected_tool(p: PathProbe) -> BuildTool {
    if p.has_pom_xml {
        BuildTool::Maven
    } else if p.has_build_gradle || p.has_build_gradle_kts {
        BuildTool::Gradle
    } else if is_file_named(p, "pom.xml"@) {
        BuildTool::Maven
    } else if is_file_named(p, "build.gradle"@) || is_file_named(p, "build.gradle.kts"@) {
        BuildTool::Gradle
    } else {
        BuildTool::Unknown
    }
}

/// Whether the probed path is a file with the given name.
fn file_named(probe: &PathProbe, name: &str) -> (b: bool)
    ensures
        b == is_file_named(*probe, name@),
{
    match &probe.file_name {
        Some(n) => probe.is_file && str_eq(n.as_str(), name),
        None => false,
    }
}

/// Detects the build tool of the project at the probed path.
pub fn detect_build_tool(probe: &PathProbe) -> (t: BuildTool)
    ensures
        t == detected_tool(*probe),
{
    if probe.has_pom_xml {
        return BuildTool::Maven;
    }
    if probe.has_build_gradle || probe.has_build_gradle_kts {
        return BuildTool::Gradle;
    }
    if file_named(probe, "pom.xml") {
        return BuildTool::Maven;
    }
    if file_named(probe, "build.gradle") || file_named(probe, "build.gradle.kts") {
        return BuildTool::Gradle;
    }
    BuildTool::Unknown
}

/// Maven when the path holds or is a `pom.xml`; else Gradle when it holds or
/// is a `build.gradle` or `build.gradle.kts`; else unknown (an empty
/// directory among them). Maven wins when both are present. This holds of
/// every probe that a file system gives: a file holds no build files.
pub proof fn law_detection_order(p: PathProbe)
    requires
        p.is_file ==> !p.has_pom_xml && !p.has_build_gradle && !p.has_build_gradle_kts,
    ensures
        detected_tool(p) == if p.has_pom_xml || is_file_named(p, "pom.xml"@) {
            BuildTool::Maven
        } else if p.has_build_gradle || p.has_build_gradle_kts || is_file_named(p, "build.gradle"@)
            || is_file_named(p, "build.gradle.kts"@) {
            BuildTool::Gradle
        } else {
            BuildTool::Unknown
        },
{
}

} // verus!

//! Gradle build files: dependency declarations and `gradle dependencies` output.

use vstd::prelude::*;

use crate::text::{
    concat3, contains_str, find_first_contained, first_contained, lines, lines_of, opt_view,
    own, somes, split_char, split_on_char, split_on_quotes, split_quotes, split_whitespace,
    one_of, lemma_split_first_piece, lemma_split_no_separator, starts_with, starts_with_str, str_eq, str_views, trim, trim_str, words, contains_seq,
};

verus! {

/// A dependency declared in a Gradle build.
#[derive(Debug, Clone, PartialEq, Eq, Hash)]
pub struct GradleDependency {
    pub group: String,
    pub name: String,
    pub version: Option<String>,
    /// The configuration it was declared in, such as `implementation`.
    pub configuration: Option<String>,
}

/// The mathematical value of a [`GradleDependency`].
pub struct GradleDependencyView {
    pub group: Seq<char>,
    pub name: Seq<char>,
    pub version: Option<Seq<char>>,
    pub configuration: Option<Seq<char>>,
}

impl View for GradleDependency {
    type V = GradleDependencyView;

    open spec fn view(&self) -> GradleDependencyView {
        GradleDependencyView {
            group: self.group@,
            name: self.name@,
            version: opt_view(self.version),
            configuration: opt_view(self.configuration),
        }
    }
}

/// The views of a list of dependencies.
pub open spec fn gradle_views(v: Seq<GradleDependency>) -> Seq<GradleDependencyView> {
    v.map_values(|d: GradleDependency| d@)
}

/// `group:name:version`, or `group:name` without a version.
pub open spec fn gradle_identifier(d: GradleDependencyView) -> Seq<char> {
    match d.version {
        Some(v) => d.group + ":"@ + d.name + ":"@ + v,
        None => d.group + ":"@ + d.name,
    }
}

/// The dependency named by a `group:name[:version...]` coordinate: at least
/// two colon-separated parts, the third one being the version.
pub open spec fn gradle_coordinate(coord: Seq<char>) -> Option<GradleDependencyView> {
    let parts = split_char(coord, ':');
    if parts.len() >= 2 {
        Some(
            GradleDependencyView {
                group: parts[0],
                name: parts[1],
                version: if parts.len() >= 3 {
                    Some(parts[2])
                } else {
                    None
                },
                configuration: None,
            },
        )
    } else {
        None
    }
}

/// Configuration keywords recognised in front of a quoted coordinate.
pub open spec fn compact_configurations() -> Seq<Seq<char>> {
    seq![
        "implementation"@,
        "api"@,
        "compileOnly"@,
        "runtimeOnly"@,
        "testImplementation"@,
        "testCompileOnly"@,
        "testRuntimeOnly"@,
        "annotationProcessor"@,
        "kapt"@,
    ]
}

/// Configuration keywords recognised in a map-style declaration.
pub open spec fn map_configurations() -> Seq<Seq<char>> {
    seq![
        "implementation"@,
        "api"@,
        "compileOnly"@,
        "runtimeOnly"@,
        "testImplementation"@,
        "testCompileOnly"@,
        "testRuntimeOnly"@,
    ]
}

/// A compact declaration such as `implementation 'group:name:version'`: the
/// line mentions a configuration keyword (the first of the list that occurs
/// in it is recorded) and its first quoted piece is a coordinate.
pub open spec fn compact_dependency(line: Seq<char>) -> Option<GradleDependencyView> {
    match first_contained(compact_configurations(), line) {
        None => None,
        Some(config) => {
            let parts = split_quotes(line);
            if parts.len() >= 2 {
                match gradle_coordinate(parts[1]) {
                    Some(d) => Some(GradleDependencyView { configuration: Some(config), ..d }),
                    None => None,
                }
            } else {
                None
            }
        },
    }
}

/// Group, name and version found so far while scanning the quote-separated
/// pieces of a map-style declaration.
pub type MapFields = (Seq<char>, Seq<char>, Option<Seq<char>>);

/// One step of the scan: a piece mentioning `group:`, `name:` or `version:`
/// (checked in that order) sets that field to the following piece.
pub open spec fn map_step(parts: Seq<Seq<char>>, i: int, st: MapFields) -> MapFields {
    if contains_seq(parts[i], "group:"@) && i + 1 < parts.len() {
        (parts[i + 1], st.1, st.2)
    } else if contains_seq(parts[i], "name:"@) && i + 1 < parts.len() {
        (st.0, parts[i + 1], st.2)
    } else if contains_seq(parts[i], "version:"@) && i + 1 < parts.len() {
        (st.0, st.1, Some(parts[i + 1]))
    } else {
        st
    }
}

/// The fields found in the first `n` pieces.
pub open spec fn map_scan(parts: Seq<Seq<char>>, n: int) -> MapFields
    decreases n,
{
    if n <= 0 {
        (Seq::empty(), Seq::empty(), None)
    } else {
        map_step(parts, n - 1, map_scan(parts, n - 1))
    }
}

/// A map-style declaration such as
/// `implementation group: 'g', name: 'n', version: 'v'`.
pub open spec fn map_dependency(line: Seq<char>) -> Option<GradleDependencyView> {
    if !contains_seq(line, "group:"@) || !contains_seq(line, "name:"@) {
        None
    } else {
        let parts = split_quotes(line);
        let st = map_scan(parts, parts.len() as int);
        if st.0.len() > 0 && st.1.len() > 0 {
            Some(
                GradleDependencyView {
                    group: st.0,
                    name: st.1,
                    version: st.2,
                    configuration: first_contained(map_configurations(), line),
                },
            )
        } else {
            None
        }
    }
}

/// Whether a trimmed line is a comment.
pub open spec fn is_comment_line(t: Seq<char>) -> bool {
    starts_with(t, "//"@) || starts_with(t, "/*"@) || starts_with(t, "*"@)
}

/// The dependency declared on one line of a build file, if any.
pub open spec fn line_dependency(line: Seq<char>) -> Option<GradleDependencyView> {
    let t = trim(line);
    if is_comment_line(t) {
        None
    } else {
        match compact_dependency(t) {
            Some(d) => Some(d),
            None => map_dependency(t),
        }
    }
}

/// The dependencies declared in a build file, in line order.
pub open spec fn source_dependencies(content: Seq<char>) -> Seq<GradleDependencyView> {
    somes(lines(content).map_values(|l: Seq<char>| line_dependency(l)))
}

/// Whether a word of a `gradle dependencies` line can be a coordinate.
pub open spec fn is_coordinate_word(w: Seq<char>) -> bool {
    w.contains(':') && !starts_with(w, "+"@) && !starts_with(w, "\\"@)
}

/// The first word that can be a coordinate.
pub open spec fn first_coordinate_word(ws: Seq<Seq<char>>) -> Option<Seq<char>>
    decreases ws.len(),
{
    if ws.len() == 0 {
        None
    } else if is_coordinate_word(ws[0]) {
        Some(ws[0])
    } else {
        first_coordinate_word(ws.drop_first())
    }
}

/// The dependency on one line of `gradle dependencies` output: a tree line
/// (containing `---`) whose first coordinate-like word is a coordinate.
pub open spec fn output_line_dependency(line: Seq<char>) -> Option<GradleDependencyView> {
    if contains_seq(line, "---"@) {
        match first_coordinate_word(words(line)) {
            Some(w) => gradle_coordinate(w),
            None => None,
        }
    } else {
        None
    }
}

/// The dependencies listed in `gradle dependencies` output, in line order.
pub open spec fn output_dependencies(output: Seq<char>) -> Seq<GradleDependencyView> {
    somes(lines(output).map_values(|l: Seq<char>| output_line_dependency(l)))
}

impl GradleDependency {
    /// The identifier `group:name:version` (`group:name` without a version).
    pub fn to_identifier(&self) -> (r: String)
        ensures
            r@ == gradle_identifier(self@),
    {
        let gn = concat3(self.group.as_str(), ":", self.name.as_str());
        proof {
            reveal_strlit(":");
        }
        match &self.version {
            Some(v) => concat3(gn.as_str(), ":", v.as_str()),
            None => gn,
        }
    }

    /// The artifact name.
    pub fn artifact_name(&self) -> (r: &str)
        ensures
            r@ == self.name@,
    {
        self.name.as_str()
    }
}

/// Extracts dependencies from a Gradle build file.
#[derive(Debug, Clone)]
pub struct GradleResolver {
    build_file: String,
    gradle_cmd: String,
}

impl GradleResolver {
    /// A resolver for the given build file, run with the `gradle` command.
    pub fn new(build_file: String) -> (r: Self)
        ensures
            r.build_file_view() == build_file@,
            r.gradle_cmd_view() == "gradle"@,
    {
        GradleResolver { build_file, gradle_cmd: own("gradle") }
    }

    /// The same resolver run with another command (such as `./gradlew`).
    pub fn with_gradle_cmd(self, cmd: String) -> (r: Self)
        ensures
            r.build_file_view() == self.build_file_view(),
            r.gradle_cmd_view() == cmd@,
    {
        GradleResolver { build_file: self.build_file, gradle_cmd: cmd }
    }

    /// The build file.
    pub closed spec fn build_file_view(&self) -> Seq<char> {
        self.build_file@
    }

    /// The command that runs Gradle.
    pub closed spec fn gradle_cmd_view(&self) -> Seq<char> {
        self.gradle_cmd@
    }

    /// The build file.
    pub fn build_file(&self) -> (r: &str)
        ensures
            r@ == self.build_file_view(),
    {
        self.build_file.as_str()
    }

    /// The command that runs Gradle.
    pub fn gradle_cmd(&self) -> (r: &str)
        ensures
            r@ == self.gradle_cmd_view(),
    {
        self.gradle_cmd.as_str()
    }

    /// Parses a `group:name[:version]` coordinate.
    pub fn parse_coordinate(&self, coord: &str) -> (r: Option<GradleDependency>)
        ensures
            match r {
                Some(d) => gradle_coordinate(coord@) == Some(d@),
                None => gradle_coordinate(coord@) is None,
            },
    {
        let parts = split_on_char(coord, ':');
        let ghost pv = parts@.map_values(|p: String| p@);
        if parts.len() >= 2 {
            assert(pv[0] == parts@[0]@ && pv[1] == parts@[1]@);
            let version = if parts.len() >= 3 {
                assert(pv[2] == parts@[2]@);
                Some(parts[2].clone())
            } else {
                None
            };
            Some(
                GradleDependency {
                    group: parts[0].clone(),
                    name: parts[1].clone(),
                    version,
                    configuration: None,
                },
            )
        } else {
            None
        }
    }

    /// Parses a compact declaration such as `implementation 'group:name:version'`.
    pub fn parse_compact_dependency(&self, line: &str) -> (r: Option<GradleDependency>)
        ensures
            match r {
                Some(d) => compact_dependency(line@) == Some(d@),
                None => compact_dependency(line@) is None,
            },
    {
        let configs = vec![
            "implementation",
            "api",
            "compileOnly",
            "runtimeOnly",
            "testImplementation",
            "testCompileOnly",
            "testRuntimeOnly",
            "annotationProcessor",
            "kapt",
        ];
        assert(str_views(configs@) =~= compact_configurations());
        match find_first_contained(&configs, line) {
            None => None,
            Some(i) => {
                let parts = split_on_quotes(line);
                let ghost pv = parts@.map_values(|p: String| p@);
                if parts.len() >= 2 {
                    assert(pv[1] == parts@[1]@);
                    match self.parse_coordinate(parts[1].as_str()) {
                        Some(dep) => {
                            let mut dep = dep;
                            dep.configuration = Some(own(configs[i]));
                            Some(dep)
                        },
                        None => None,
                    }
                } else {
                    None
                }
            },
        }
    }

    /// Parses a map-style declaration such as
    /// `implementation group: 'g', name: 'n', version: 'v'`.
    pub fn parse_map_dependency(&self, line: &str) -> (r: Option<GradleDependency>)
        ensures
            match r {
                Some(d) => map_dependency(line@) == Some(d@),
                None => map_dependency(line@) is None,
            },
    {
        if !contains_str(line, "group:") || !contains_str(line, "name:") {
            return None;
        }
        let configs = vec![
            "implementation",
            "api",
            "compileOnly",
            "runtimeOnly",
            "testImplementation",
            "testCompileOnly",
            "testRuntimeOnly",
        ];
        assert(str_views(configs@) =~= map_configurations());
        let configuration = match find_first_contained(&configs, line) {
            Some(i) => Some(own(configs[i])),
            None => None,
        };
        let parts = split_on_quotes(line);
        let ghost pv = parts@.map_values(|p: String| p@);
        let mut group = String::new();
        let mut name = String::new();
        let mut version: Option<String> = None;
        let n = parts.len();
        for i in 0..n
            invariant
                n == parts@.len(),
                pv == parts@.map_values(|p: String| p@),
                map_scan(pv, i as int) == (group@, name@, opt_view(version)),
        {
            assert(pv[i as int] == parts@[i as int]@);
            if i + 1 < n {
                assert(pv[i + 1] == parts@[i + 1]@);
            }
            if contains_str(parts[i].as_str(), "group:") && i + 1 < n {
                group = parts[i + 1].clone();
            } else if contains_str(parts[i].as_str(), "name:") && i + 1 < n {
                name = parts[i + 1].clone();
            } else if contains_str(parts[i].as_str(), "version:") && i + 1 < n {
                version = Some(parts[i + 1].clone());
            }
        }
        if !group.as_str().is_empty() && !name.as_str().is_empty() {
            Some(GradleDependency { group, name, version, configuration })
        } else {
            None
        }
    }

    /// The dependency declared on one line, if any.
    fn line_dependency(&self, line: &str) -> (r: Option<GradleDependency>)
        ensures
            match r {
                Some(d) => line_dependency(line@) == Some(d@),
                None => line_dependency(line@) is None,
            },
    {
        let trimmed = trim_str(line);
        let t = trimmed.as_str();
        if starts_with_str(t, "//") || starts_with_str(t, "/*") || starts_with_str(t, "*") {
            return None;
        }
        match self.parse_compact_dependency(t) {
            Some(dep) => Some(dep),
            None => self.parse_map_dependency(t),
        }
    }

    /// Extracts the dependencies declared in a build file's source, in line
    /// order; comment lines are skipped.
    pub fn extract_dependencies_from_source(&self, content: &str) -> (r: Vec<GradleDependency>)
        ensures
            gradle_views(r@) == source_dependencies(content@),
    {
        let ls = lines_of(content);
        let ghost lv = ls@.map_values(|p: String| p@);
        let ghost f = |l: Seq<char>| line_dependency(l);
        let mut deps: Vec<GradleDependency> = Vec::new();
        let n = ls.len();
        for i in 0..n
            invariant
                n == ls@.len(),
                lv == ls@.map_values(|p: String| p@),
                lv == lines(content@),
                f == (|l: Seq<char>| line_dependency(l)),
                gradle_views(deps@) == somes(lv.take(i as int).map_values(f)),
        {
            let ghost before = deps@;
            let d = self.line_dependency(ls[i].as_str());
            assert(lv.take(i + 1).map_values(f).drop_last() =~= lv.take(i as int).map_values(f));
            assert(lv.take(i + 1).map_values(f).last() == line_dependency(ls@[i as int]@));
            match d {
                Some(dep) => {
                    deps.push(dep);
                    assert(gradle_views(deps@) =~= gradle_views(before).push(deps@.last()@));
                },
                None => {},
            }
        }
        assert(lv.take(n as int) =~= lv);
        deps
    }

    /// The dependency on one line of `gradle dependencies` output, if any.
    fn output_line_dependency(&self, line: &str) -> (r: Option<GradleDependency>)
        ensures
            match r {
                Some(d) => output_line_dependency(line@) == Some(d@),
                None => output_line_dependency(line@) is None,
            },
    {
        if !contains_str(line, "---") {
            return None;
        }
        let parts = split_whitespace(line);
        let ghost ws = parts@.map_values(|p: String| p@);
        let n = parts.len();
        assert(ws.skip(0) =~= ws);
        for i in 0..n
            invariant
                n == parts@.len(),
                ws == parts@.map_values(|p: String| p@),
                ws == words(line@),
                contains_seq(line@, "---"@),
                first_coordinate_word(ws) == first_coordinate_word(ws.skip(i as int)),
        {
            let part = parts[i].as_str();
            let cs = crate::text::chars_of(part);
            assert(ws.skip(i as int)[0] == ws[i as int]);
            assert(ws[i as int] == part@);
            assert(ws.skip(i as int).drop_first() =~= ws.skip(i + 1));
            if crate::text::contains_char(cs.as_slice(), ':') && !starts_with_str(part, "+")
                && !starts_with_str(part, "\\") {
                assert(is_coordinate_word(ws[i as int]));
                assert(first_coordinate_word(ws.skip(i as int)) == Some(ws[i as int]));
                return self.parse_coordinate(part);
            }
        }
        assert(ws.skip(n as int).len() == 0);
        None
    }

    /// Extracts the dependencies listed in `gradle dependencies` output, in
    /// line order.
    pub fn parse_dependencies_output(&self, output: &str) -> (r: Vec<GradleDependency>)
        ensures
            gradle_views(r@) == output_dependencies(output@),
    {
        let ls = lines_of(output);
        let ghost lv = ls@.map_values(|p: String| p@);
        let ghost f = |l: Seq<char>| output_line_dependency(l);
        let mut deps: Vec<GradleDependency> = Vec::new();
        let n = ls.len();
        for i in 0..n
            invariant
                n == ls@.len(),
                lv == ls@.map_values(|p: String| p@),
                lv == lines(output@),
                f == (|l: Seq<char>| output_line_dependency(l)),
                gradle_views(deps@) == somes(lv.take(i as int).map_values(f)),
        {
            let ghost before = deps@;
            let d = self.output_line_dependency(ls[i].as_str());
            assert(lv.take(i + 1).map_values(f).drop_last() =~= lv.take(i as int).map_values(f));
            assert(lv.take(i + 1).map_values(f).last() == output_line_dependency(ls@[i as int]@));
            match d {
                Some(dep) => {
                    deps.push(dep);
                    assert(gradle_views(deps@) =~= gradle_views(before).push(deps@.last()@));
                },
                None => {},
            }
        }
        assert(lv.take(n as int) =~= lv);
        deps
    }

    /// The dependencies to report given what running `gradle dependencies`
    /// printed (`None` when Gradle was unavailable or failed): the listed
    /// dependencies when there are any, or `None` when the build file itself
    /// must be parsed instead.
    pub fn dependencies_from_tool_output(&self, output: Option<&str>) -> (r: Option<
        Vec<GradleDependency>,
    >)
        ensures
            match output {
                Some(o) => match r {
                    Some(v) => output_dependencies(o@).len() > 0 && gradle_views(v@)
                        == output_dependencies(o@),
                    None => output_dependencies(o@).len() == 0,
                },
                None => r is None,
            },
    {
        match output {
            Some(o) => {
                let deps = self.parse_dependencies_output(o);
                if deps.len() > 0 {
                    Some(deps)
                } else {
                    None
                }
            },
            None => None,
        }
    }
}

/// Whether the search for Gradle builds passes over a directory with this
/// name: build output (`build`) and Gradle's own files (`.gradle`).
pub fn is_skipped_directory(name: &str) -> (b: bool)
    ensures
        b == (name@ == "build"@ || name@ == ".gradle"@),
{
    str_eq(name, "build") || str_eq(name, ".gradle")
}

/// Whether a file is a Gradle build by its name.
pub fn is_build_file_name(name: &str) -> (b: bool)
    ensures
        b == (name@ == "build.gradle"@ || name@ == "build.gradle.kts"@),
{
    str_eq(name, "build.gradle") || str_eq(name, "build.gradle.kts")
}

/// A dependency's identifier read back as a coordinate gives the
/// dependency again, without a configuration, when it has a version and its
/// group, name and version hold no `:`.
pub proof fn law_identifier_round_trip(d: GradleDependencyView)
    requires
        d.version is Some,
        !d.group.contains(':'),
        !d.name.contains(':'),
        !d.version->0.contains(':'),
    ensures
        gradle_coordinate(gradle_identifier(d)) == Some(GradleDependencyView { configuration: None, ..d }),
{
    reveal_strlit(":");
    let sep = one_of(seq![':']);
    let v = d.version->0;
    assert forall|i: int| 0 <= i < d.group.len() implies !sep(#[trigger] d.group[i]) by {
        assert(!seq![':'].contains(d.group[i])) by {
            if seq![':'].contains(d.group[i]) {
                assert(d.group.contains(d.group[i]));
            }
        }
    }
    assert forall|i: int| 0 <= i < d.name.len() implies !sep(#[trigger] d.name[i]) by {
        if seq![':'].contains(d.name[i]) {
            assert(d.name.contains(d.name[i]));
        }
    }
    assert forall|i: int| 0 <= i < v.len() implies !sep(#[trigger] v[i]) by {
        if seq![':'].contains(v[i]) {
            assert(v.contains(v[i]));
        }
    }
    assert(seq![':'][0] == ':');
    assert(sep(':'));
    lemma_split_no_separator(v, sep);
    lemma_split_first_piece(d.name, ':', v, sep);
    let rest = d.name + seq![':'] + v;
    lemma_split_first_piece(d.group, ':', rest, sep);
    assert(gradle_identifier(d) =~= d.group + seq![':'] + rest);
}

proof fn lemma_first_coordinate_word(ws: Seq<Seq<char>>, k: int)
    requires
        0 <= k < ws.len(),
        is_coordinate_word(ws[k]),
        forall|m: int| 0 <= m < k ==> !is_coordinate_word(#[trigger] ws[m]),
    ensures
        first_coordinate_word(ws) == Some(ws[k]),
    decreases k,
{
    if k > 0 {
        assert(!is_coordinate_word(ws[0]));
        let rest = ws.drop_first();
        assert forall|m: int| 0 <= m < k - 1 implies !is_coordinate_word(#[trigger] rest[m]) by {
            assert(rest[m] == ws[m + 1]);
        }
        lemma_first_coordinate_word(rest, k - 1);
    }
}

/// A tree line of `gradle dependencies` output (it holds `---`) gives the
/// coordinate in its first word that holds a colon and does not start with
/// `+` or `\`: `group:name[:version]`, exactly those parts, the version
/// included when there is one.
pub proof fn law_output_line_coordinate(line: Seq<char>, k: int)
    requires
        contains_seq(line, "---"@),
        0 <= k < words(line).len(),
        words(line)[k].contains(':') && !starts_with(words(line)[k], "+"@) && !starts_with(words(line)[k], "\\"@),
        forall|m: int|
            0 <= m < k ==> !((#[trigger] words(line)[m]).contains(':') && !starts_with(words(line)[m], "+"@)
                && !starts_with(words(line)[m], "\\"@)),
        split_char(words(line)[k], ':').len() >= 2,
    ensures
        ({
            let parts = split_char(words(line)[k], ':');
            output_line_dependency(line) == Some(
                GradleDependencyView {
                    group: parts[0],
                    name: parts[1],
                    version: if parts.len() >= 3 {
                        Some(parts[2])
                    } else {
                        None
                    },
                    configuration: None,
                },
            )
        }),
{
    assert forall|m: int| 0 <= m < k implies !is_coordinate_word(#[trigger] words(line)[m]) by {}
    lemma_first_coordinate_word(words(line), k);
}

/// Every dependency on a line of `gradle dependencies` output is among the
/// dependencies read from the output.
pub proof fn law_output_keeps_lines(output: Seq<char>, i: int)
    requires
        0 <= i < lines(output).len(),
    ensures
        output_line_dependency(lines(output)[i]) matches Some(d) ==> output_dependencies(output).contains(d),
{
    let s = lines(output).map_values(|l: Seq<char>| output_line_dependency(l));
    if let Some(d) = output_line_dependency(lines(output)[i]) {
        assert(s[i] == Some(d));
        crate::text::lemma_somes_contains(s, i, d);
    }
}

proof fn lemma_first_contained_only(cands: Seq<Seq<char>>, s: Seq<char>, x: Seq<char>)
    requires
        cands.contains(x),
        contains_seq(s, x),
        forall|k: int| 0 <= k < cands.len() && contains_seq(s, #[trigger] cands[k]) ==> cands[k] == x,
    ensures
        first_contained(cands, s) == Some(x),
    decreases cands.len(),
{
    if !contains_seq(s, cands[0]) {
        let rest = cands.drop_first();
        let j = choose|j: int| 0 <= j < cands.len() && cands[j] == x;
        assert(j > 0);
        assert(rest[j - 1] == x);
        assert forall|k: int| 0 <= k < rest.len() && contains_seq(s, #[trigger] rest[k]) implies rest[k] == x by {
            assert(rest[k] == cands[k + 1]);
        }
        lemma_first_contained_only(rest, s, x);
    }
}

/// A compact declaration in any of the configurations `implementation`,
/// `api`, `compileOnly`, `runtimeOnly`, `testImplementation`,
/// `testCompileOnly`, `testRuntimeOnly`, `annotationProcessor` or `kapt`
/// (the only one the line mentions) whose first quoted piece is a
/// `group:name[:version]` coordinate gives that dependency with that
/// configuration.
pub proof fn law_compact_declaration(line: Seq<char>, config: Seq<char>)
    requires
        config == "implementation"@ || config == "api"@ || config == "compileOnly"@ || config == "runtimeOnly"@ || config == "testImplementation"@ || config == "testCompileOnly"@ || config == "testRuntimeOnly"@ || config == "annotationProcessor"@ || config == "kapt"@,
        contains_seq(line, config),
        forall|k: int|
            0 <= k < compact_configurations().len() && contains_seq(line, #[trigger] compact_configurations()[k])
                ==> compact_configurations()[k] == config,
        split_quotes(line).len() >= 2,
        split_char(split_quotes(line)[1], ':').len() >= 2,
    ensures
        ({
            let parts = split_char(split_quotes(line)[1], ':');
            compact_dependency(line) == Some(
                GradleDependencyView {
                    group: parts[0],
                    name: parts[1],
                    version: if parts.len() >= 3 {
                        Some(parts[2])
                    } else {
                        None
                    },
                    configuration: Some(config),
                },
            )
        }),
{
    assert(compact_configurations()[0] == "implementation"@);
    assert(compact_configurations()[1] == "api"@);
    assert(compact_configurations()[2] == "compileOnly"@);
    assert(compact_configurations()[3] == "runtimeOnly"@);
    assert(compact_configurations()[4] == "testImplementation"@);
    assert(compact_configurations()[5] == "testCompileOnly"@);
    assert(compact_configurations()[6] == "testRuntimeOnly"@);
    assert(compact_configurations()[7] == "annotationProcessor"@);
    assert(compact_configurations()[8] == "kapt"@);
    lemma_first_contained_only(compact_configurations(), line, config);
}

} // verus!

//! Dependencies declared in build files, each with the line it starts on.

use vstd::prelude::*;
use vstd::utf8::encode_utf8;

use crate::buildtool::maven::{
    event_budget, is_final_event, parsed_pom, reference_text, resolved_version, MavenDependency,
    MavenDependencyView, MavenPom,
};
use crate::java_graph::query::{opt_views, regex_capture_groups, regex_compiles, CompiledRegex};
use crate::text::{concat3, is_empty_str, lines, lines_of, opt_view, own, str_eq};
use crate::xml::{unescape, xml_event, xml_offset, XmlEvent, XmlEventView, XmlReader};

verus! {

/// The number of line feeds among the first `p` bytes.
pub open spec fn newline_count(bytes: Seq<u8>, p: int) -> nat
    decreases p,
{
    if p <= 0 {
        0
    } else {
        newline_count(bytes, p - 1) + if bytes[p - 1] == 10u8 {
            1nat
        } else {
            0nat
        }
    }
}

proof fn lemma_newline_count_bound(bytes: Seq<u8>, p: int)
    ensures
        p >= 0 ==> newline_count(bytes, p) <= p,
    decreases p,
{
    if p > 0 {
        lemma_newline_count_bound(bytes, p - 1);
    }
}

/// What the scan of a POM knows after some events.
pub struct DependencyScan {
    pub in_dependency: bool,
    /// The element inside a dependency whose text is being read.
    pub element: Seq<char>,
    /// The text read so far in that element.
    pub text: Seq<char>,
    pub group_id: Seq<char>,
    pub artifact_id: Seq<char>,
    pub version: Option<Seq<char>>,
    /// The line the current dependency started on.
    pub start_line: u32,
    /// The line the reader is on.
    pub line: u32,
    pub found: Seq<(MavenDependencyView, u32)>,
}

/// The scan before any event.
pub open spec fn scan_initial() -> DependencyScan {
    DependencyScan {
        in_dependency: false,
        element: Seq::empty(),
        text: Seq::empty(),
        group_id: Seq::empty(),
        artifact_id: Seq::empty(),
        version: None,
        start_line: 0,
        line: 1,
        found: Seq::empty(),
    }
}

/// A dependency with the given coordinates and nothing else set.
pub open spec fn coordinates(g: Seq<char>, a: Seq<char>, v: Option<Seq<char>>) -> MavenDependencyView {
    MavenDependencyView {
        group_id: g,
        artifact_id: a,
        version: v,
        scope: None,
        classifier: None,
        type_: None,
        optional: false,
    }
}

/// The line the reader is on at byte offset `pos`: one more than the line
/// feeds before it; past the end, the line stays.
pub open spec fn scan_at(bytes: Seq<u8>, st: DependencyScan, pos: nat) -> DependencyScan {
    if pos < bytes.len() {
        DependencyScan { line: (newline_count(bytes, pos as int) + 1) as u32, ..st }
    } else {
        st
    }
}

/// Text read inside a coordinate element of a dependency sets that
/// coordinate to the element's text run so far (text and references since
/// the last other event, such as a comment), with a `${name}` property
/// reference resolved.
pub open spec fn scan_text(st: DependencyScan, props: Seq<(Seq<char>, Seq<char>)>, t: Seq<char>) -> DependencyScan {
    if st.in_dependency && st.element.len() > 0 {
        let text = st.text + t;
        let v = resolved_version(props, text);
        if st.element == "groupId"@ {
            DependencyScan { text, group_id: v, ..st }
        } else if st.element == "artifactId"@ {
            DependencyScan { text, artifact_id: v, ..st }
        } else if st.element == "version"@ {
            DependencyScan { text, version: Some(v), ..st }
        } else {
            DependencyScan { text, ..st }
        }
    } else {
        st
    }
}

/// The effect of one event that does not end the reading: any event other
/// than a start or end tag, text or a reference ends the current text run.
pub open spec fn scan_step(st: DependencyScan, props: Seq<(Seq<char>, Seq<char>)>, e: XmlEventView) -> DependencyScan {
    match e {
        XmlEventView::Start(name) => if name == "dependency"@ {
            DependencyScan {
                in_dependency: true,
                start_line: st.line,
                group_id: Seq::empty(),
                artifact_id: Seq::empty(),
                version: None,
                text: Seq::empty(),
                ..st
            }
        } else if st.in_dependency {
            DependencyScan { element: name, text: Seq::empty(), ..st }
        } else {
            st
        },
        XmlEventView::End(name) => if name == "dependency"@ && st.in_dependency {
            DependencyScan {
                in_dependency: false,
                found: if st.group_id.len() > 0 && st.artifact_id.len() > 0 {
                    st.found.push((coordinates(st.group_id, st.artifact_id, st.version), st.start_line))
                } else {
                    st.found
                },
                ..st
            }
        } else if st.in_dependency && name == st.element {
            DependencyScan { element: Seq::empty(), text: Seq::empty(), ..st }
        } else {
            st
        },
        XmlEventView::Text(t) => scan_text(st, props, t),
        XmlEventView::Reference(name) => scan_text(st, props, reference_text(name)),
        _ => DependencyScan { text: Seq::empty(), ..st },
    }
}

/// The scan after at most `k` events of `source`, and whether reading
/// stopped at the end of the document or at an error.
pub open spec fn scan_run(source: Seq<char>, props: Seq<(Seq<char>, Seq<char>)>, k: nat) -> (DependencyScan, bool)
    decreases k,
{
    if k == 0 {
        (scan_initial(), false)
    } else {
        let (st, stopped) = scan_run(source, props, (k - 1) as nat);
        if stopped {
            (st, true)
        } else {
            let st1 = scan_at(encode_utf8(source), st, xml_offset(source, (k - 1) as nat));
            let e = xml_event(source, (k - 1) as nat);
            if is_final_event(e) {
                (st1, true)
            } else {
                (scan_step(st1, props, e), false)
            }
        }
    }
}

/// The dependencies of a POM with the lines they start on, coordinates
/// resolved against the POM's properties; those without a group or an
/// artifact are left out.
pub open spec fn pom_dependency_lines(source: Seq<char>, path: Seq<char>) -> Seq<(MavenDependencyView, u32)> {
    scan_run(source, parsed_pom(source, path).properties, event_budget(source)).0.found
}

/// The views of dependencies with lines.
pub open spec fn dependency_line_views(v: Seq<(MavenDependency, u32)>) -> Seq<(MavenDependencyView, u32)> {
    v.map_values(|p: (MavenDependency, u32)| (p.0@, p.1))
}

/// Line feeds among the first `pos` bytes.
fn count_newlines(bytes: &[u8], pos: usize) -> (n: usize)
    requires
        pos <= bytes@.len(),
    ensures
        n == newline_count(bytes@, pos as int),
{
    let mut n: usize = 0;
    let mut i: usize = 0;
    while i < pos
        invariant
            i <= pos <= bytes@.len(),
            n == newline_count(bytes@, i as int),
            n <= i,
        decreases pos - i,
    {
        if bytes[i] == 10u8 {
            n = n + 1;
        }
        i = i + 1;
    }
    n
}

/// The scan in executable form.
struct Scanner {
    in_dependency: bool,
    element: String,
    text: String,
    group_id: String,
    artifact_id: String,
    version: Option<String>,
    start_line: u32,
    line: u32,
    found: Vec<(MavenDependency, u32)>,
}

impl View for Scanner {
    type V = DependencyScan;

    closed spec fn view(&self) -> DependencyScan {
        DependencyScan {
            in_dependency: self.in_dependency,
            element: self.element@,
            text: self.text@,
            group_id: self.group_id@,
            artifact_id: self.artifact_id@,
            version: opt_view(self.version),
            start_line: self.start_line,
            line: self.line,
            found: dependency_line_views(self.found@),
        }
    }
}

impl Scanner {
    fn new() -> (s: Self)
        ensures
            s@ == scan_initial(),
    {
        let s = Scanner {
            in_dependency: false,
            element: String::new(),
            text: String::new(),
            group_id: String::new(),
            artifact_id: String::new(),
            version: None,
            start_line: 0,
            line: 1,
            found: Vec::new(),
        };
        assert(s@.found =~= Seq::<(MavenDependencyView, u32)>::empty());
        s
    }

    fn text(&mut self, pom: &MavenPom, t: &str)
        ensures
            final(self)@ == scan_text(old(self)@, pom@.properties, t@),
    {
        if self.in_dependency && !is_empty_str(self.element.as_str()) {
            let text = concat3(self.text.as_str(), t, "");
            proof {
                reveal_strlit("");
                assert(text@ =~= self.text@ + t@);
            }
            let v = pom.resolve_version(text.as_str());
            if str_eq(self.element.as_str(), "groupId") {
                self.group_id = v;
            } else if str_eq(self.element.as_str(), "artifactId") {
                self.artifact_id = v;
            } else if str_eq(self.element.as_str(), "version") {
                self.version = Some(v);
            }
            self.text = text;
        }
    }

    fn step(&mut self, pom: &MavenPom, e: XmlEvent)
        ensures
            final(self)@ == scan_step(old(self)@, pom@.properties, e@),
    {
        match e {
            XmlEvent::Start(name) => {
                if str_eq(name.as_str(), "dependency") {
                    self.in_dependency = true;
                    self.start_line = self.line;
                    self.group_id = String::new();
                    self.artifact_id = String::new();
                    self.version = None;
                    self.text = String::new();
                } else if self.in_dependency {
                    self.element = name;
                    self.text = String::new();
                }
            },
            XmlEvent::End(name) => {
                if str_eq(name.as_str(), "dependency") && self.in_dependency {
                    if !is_empty_str(self.group_id.as_str()) && !is_empty_str(self.artifact_id.as_str()) {
                        let d = MavenDependency {
                            group_id: own(self.group_id.as_str()),
                            artifact_id: own(self.artifact_id.as_str()),
                            version: match &self.version {
                                Some(v) => Some(own(v.as_str())),
                                None => None,
                            },
                            scope: None,
                            classifier: None,
                            type_: None,
                            optional: false,
                        };
                        let ghost before = self.found@;
                        self.found.push((d, self.start_line));
                        assert(dependency_line_views(self.found@) =~= dependency_line_views(before).push(
                            (d@, self.start_line),
                        ));
                    }
                    self.in_dependency = false;
                } else if self.in_dependency && str_eq(name.as_str(), self.element.as_str()) {
                    self.element = String::new();
                    self.text = String::new();
                }
            },
            XmlEvent::Text(t) => self.text(pom, t.as_str()),
            XmlEvent::Reference(name) => {
                let raw = concat3("&", name.as_str(), ";");
                match unescape(raw.as_str()) {
                    Some(t) => self.text(pom, t.as_str()),
                    None => {
                        proof {
                            reveal_strlit("");
                        }
                        self.text(pom, "")
                    },
                }
            },
            _ => {
                self.text = String::new();
            },
        }
    }
}

/// Once reading has stopped, further events change nothing.
proof fn lemma_scan_run_stopped(source: Seq<char>, props: Seq<(Seq<char>, Seq<char>)>, k: nat, m: nat)
    requires
        k <= m,
        scan_run(source, props, k).1,
    ensures
        scan_run(source, props, m) == scan_run(source, props, k),
    decreases m - k,
{
    if k < m {
        lemma_scan_run_stopped(source, props, k, (m - 1) as nat);
    }
}

/// The dependencies of a POM with the lines they start on: each
/// `<dependency>` element whose group and artifact are not empty, its
/// coordinates resolved against the POM's properties. Reading stops at the
/// end of the document or at the first syntax error.
pub fn maven_dependencies_with_lines(pom_path: &str, content: &str) -> (r: Vec<(MavenDependency, u32)>)
    requires
        encode_utf8(content@).len() < 4294967295,
    ensures
        dependency_line_views(r@) == pom_dependency_lines(content@, pom_path@),
{
    let pom = match MavenPom::parse_from_string(content, own(pom_path)) {
        Ok(p) => p,
        Err(_) => {
            return Vec::new();
        },
    };
    let ghost props = pom@.properties;
    let bytes = content.as_bytes();
    let mut reader = XmlReader::new(content);
    let mut sc = Scanner::new();
    let n = crate::text::chars_of(content).len();
    let mut k: usize = 0;
    loop
        invariant_except_break
            reader.count() == k,
            reader.trims(),
            scan_run(content@, props, k as nat) == (sc@, false),
        invariant
            reader.source() == content@,
            n == content@.len(),
            k <= n,
            bytes@ == encode_utf8(content@),
            bytes@.len() < 4294967295,
            props == pom@.properties,
        ensures
            sc@ == scan_run(content@, props, event_budget(content@)).0,
        decreases n - k,
    {
        let pos = reader.position();
        if pos < bytes.len() as u64 {
            let c = count_newlines(bytes, pos as usize);
            proof {
                lemma_newline_count_bound(bytes@, pos as int);
            }
            sc.line = (c as u32) + 1;
        }
        let e = reader.next_event();
        match e {
            XmlEvent::Eof | XmlEvent::Error => {
                proof {
                    lemma_scan_run_stopped(content@, props, (k + 1) as nat, event_budget(content@));
                }
                break;
            },
            _ => {},
        }
        sc.step(&pom, e);
        if k == n {
            break;
        }
        k = k + 1;
    }
    sc.found
}

/// The regular expression that finds a dependency on a line of a Gradle
/// build: a configuration keyword, then a quoted `group:artifact:version`.
pub open spec fn gradle_dependency_pattern() -> Seq<char> {
    r#"(?m)^\s*(?:compile|implementation|testImplementation|api|testCompile)\s+['"]([^:'"]+):([^:'"]+):([^'"]+)['"]"#@
}

/// The text of capture group `i`, empty when it took no part.
pub open spec fn group_text(g: Seq<Option<Seq<char>>>, i: int) -> Seq<char> {
    if 0 <= i < g.len() {
        match g[i] {
            Some(t) => t,
            None => Seq::empty(),
        }
    } else {
        Seq::empty()
    }
}

/// Capture group `i`, if it took part.
pub open spec fn group_opt(g: Seq<Option<Seq<char>>>, i: int) -> Option<Seq<char>> {
    if 0 <= i < g.len() {
        g[i]
    } else {
        None
    }
}

/// The dependency the capture groups of a match name: groups one to three
/// are the group, the artifact and the version; a match with an empty group
/// or artifact names none.
pub open spec fn captured_dependency(caps: Option<Seq<Option<Seq<char>>>>) -> Option<MavenDependencyView> {
    match caps {
        None => None,
        Some(g) => if group_text(g, 1).len() > 0 && group_text(g, 2).len() > 0 {
            Some(coordinates(group_text(g, 1), group_text(g, 2), group_opt(g, 3)))
        } else {
            None
        },
    }
}

/// The views of optional capture groups.
pub open spec fn captures_view(caps: Option<Vec<Option<String>>>) -> Option<Seq<Option<Seq<char>>>> {
    match caps {
        Some(v) => Some(opt_views(v@)),
        None => None,
    }
}

/// The view of an optional dependency.
pub open spec fn opt_dependency_view(d: Option<MavenDependency>) -> Option<MavenDependencyView> {
    match d {
        Some(x) => Some(x@),
        None => None,
    }
}

/// The text of capture group `i`, empty when it took no part.
fn group_at(g: &Vec<Option<String>>, i: usize) -> (r: String)
    ensures
        r@ == group_text(opt_views(g@), i as int),
{
    if i < g.len() {
        match &g[i] {
            Some(t) => own(t.as_str()),
            None => String::new(),
        }
    } else {
        String::new()
    }
}

/// The dependency named by the capture groups of a dependency line match.
pub fn dependency_from_captures(caps: &Option<Vec<Option<String>>>) -> (r: Option<MavenDependency>)
    ensures
        opt_dependency_view(r) == captured_dependency(captures_view(*caps)),
{
    match caps {
        None => None,
        Some(g) => {
            let group_id = group_at(g, 1);
            let artifact_id = group_at(g, 2);
            let version = if 3 < g.len() {
                match &g[3] {
                    Some(t) => Some(own(t.as_str())),
                    None => None,
                }
            } else {
                None
            };
            if !is_empty_str(group_id.as_str()) && !is_empty_str(artifact_id.as_str()) {
                Some(
                    MavenDependency {
                        group_id,
                        artifact_id,
                        version,
                        scope: None,
                        classifier: None,
                        type_: None,
                        optional: false,
                    },
                )
            } else {
                None
            }
        },
    }
}

/// The dependencies found on the given lines, each with its line number
/// (counting from one).
pub open spec fn gradle_found(pattern: Seq<char>, ls: Seq<Seq<char>>) -> Seq<(MavenDependencyView, u32)>
    decreases ls.len(),
{
    if ls.len() == 0 {
        Seq::empty()
    } else {
        let prev = gradle_found(pattern, ls.drop_last());
        match captured_dependency(regex_capture_groups(pattern, ls.last())) {
            Some(d) => prev.push((d, ls.len() as u32)),
            None => prev,
        }
    }
}

/// The dependencies of a Gradle build with the lines they are on: lines
/// such as `implementation 'group:artifact:version'`. `None` when the
/// regular expression cannot be compiled.
pub fn gradle_dependencies_with_lines(content: &str) -> (r: Option<Vec<(MavenDependency, u32)>>)
    ensures
        r is Some <==> regex_compiles(gradle_dependency_pattern()),
        r matches Some(v) ==> dependency_line_views(v@) == gradle_found(gradle_dependency_pattern(), lines(content@)),
{
    let re = match CompiledRegex::new(
        r#"(?m)^\s*(?:compile|implementation|testImplementation|api|testCompile)\s+['"]([^:'"]+):([^:'"]+):([^'"]+)['"]"#,
    ) {
        Some(re) => re,
        None => {
            return None;
        },
    };
    let ls = lines_of(content);
    let ghost lv = ls@.map_values(|p: String| p@);
    let mut out: Vec<(MavenDependency, u32)> = Vec::new();
    let n = ls.len();
    assert(lv.take(0) =~= Seq::<Seq<char>>::empty());
    for k in 0..n
        invariant
            n == ls@.len(),
            lv == ls@.map_values(|p: String| p@),
            lv == lines(content@),
            re.source() == gradle_dependency_pattern(),
            dependency_line_views(out@) == gradle_found(gradle_dependency_pattern(), lv.take(k as int)),
    {
        let caps = re.captures(ls[k].as_str());
        let ghost before = out@;
        assert(lv.take(k + 1).drop_last() =~= lv.take(k as int));
        assert(lv.take(k + 1).last() == ls@[k as int]@);
        match dependency_from_captures(&caps) {
            Some(d) => {
                out.push((d, (k + 1) as u32));
                assert(dependency_line_views(out@) =~= dependency_line_views(before).push(
                    (d@, (k + 1) as u32),
                ));
            },
            None => {},
        }
    }
    assert(lv.take(n as int) =~= lv);
    Some(out)
}

} // verus!

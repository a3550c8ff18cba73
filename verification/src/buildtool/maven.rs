//! Maven builds: `pom.xml` documents and `mvn dependency:tree` output.

use vstd::prelude::*;

use crate::strmap::{entries_view, insert_entry, lemma_insert_view, lemma_lookup_view, lookup, StrMap};
use crate::text::{
    chars_of, concat3, contains_char, ends_with, ends_with_str, lines, lines_of, opt_view, own,
    somes, split_char, split_on_char, split_whitespace, starts_with, starts_with_str, str_eq,
    string_of_range, trim, trim_str, words,
};
use crate::xml::{unescape, xml_event, xml_unescaped, XmlEvent, XmlEventView, XmlReader};

verus! {

/// A dependency of a Maven project.
#[derive(Debug, Clone, PartialEq, Eq, Hash)]
pub struct MavenDependency {
    pub group_id: String,
    pub artifact_id: String,
    pub version: Option<String>,
    pub scope: Option<String>,
    pub classifier: Option<String>,
    pub type_: Option<String>,
    pub optional: bool,
}

/// The mathematical value of a [`MavenDependency`].
pub struct MavenDependencyView {
    pub group_id: Seq<char>,
    pub artifact_id: Seq<char>,
    pub version: Option<Seq<char>>,
    pub scope: Option<Seq<char>>,
    pub classifier: Option<Seq<char>>,
    pub type_: Option<Seq<char>>,
    pub optional: bool,
}

impl View for MavenDependency {
    type V = MavenDependencyView;

    open spec fn view(&self) -> MavenDependencyView {
        MavenDependencyView {
            group_id: self.group_id@,
            artifact_id: self.artifact_id@,
            version: opt_view(self.version),
            scope: opt_view(self.scope),
            classifier: opt_view(self.classifier),
            type_: opt_view(self.type_),
            optional: self.optional,
        }
    }
}

/// The views of a list of dependencies.
pub open spec fn maven_views(v: Seq<MavenDependency>) -> Seq<MavenDependencyView> {
    v.map_values(|d: MavenDependency| d@)
}

/// `groupId:artifactId:version`, or `groupId:artifactId` without a version.
pub open spec fn maven_identifier(d: MavenDependencyView) -> Seq<char> {
    match d.version {
        Some(v) => d.group_id + ":"@ + d.artifact_id + ":"@ + v,
        None => d.group_id + ":"@ + d.artifact_id,
    }
}

/// A dependency with empty coordinates and nothing else set.
pub open spec fn empty_dependency() -> MavenDependencyView {
    MavenDependencyView {
        group_id: Seq::empty(),
        artifact_id: Seq::empty(),
        version: None,
        scope: None,
        classifier: None,
        type_: None,
        optional: false,
    }
}

impl MavenDependency {
    /// The identifier `groupId:artifactId:version` (`groupId:artifactId`
    /// without a version).
    pub fn to_identifier(&self) -> (r: String)
        ensures
            r@ == maven_identifier(self@),
    {
        let ga = concat3(self.group_id.as_str(), ":", self.artifact_id.as_str());
        match &self.version {
            Some(v) => concat3(ga.as_str(), ":", v.as_str()),
            None => ga,
        }
    }

    /// The name the dependency is reported under: its artifact id.
    pub fn name(&self) -> (r: String)
        ensures
            r@ == self.artifact_id@,
    {
        self.artifact_id.clone()
    }
}

/// The parent project a POM inherits from.
#[derive(Debug, Clone, PartialEq, Eq)]
pub struct ParentInfo {
    pub group_id: String,
    pub artifact_id: String,
    pub version: String,
}

/// The mathematical value of a [`ParentInfo`].
pub struct ParentInfoView {
    pub group_id: Seq<char>,
    pub artifact_id: Seq<char>,
    pub version: Seq<char>,
}

impl View for ParentInfo {
    type V = ParentInfoView;

    open spec fn view(&self) -> ParentInfoView {
        ParentInfoView {
            group_id: self.group_id@,
            artifact_id: self.artifact_id@,
            version: self.version@,
        }
    }
}

/// A parsed `pom.xml`.
#[derive(Debug)]
pub struct MavenPom {
    pub path: String,
    pub group_id: Option<String>,
    pub artifact_id: Option<String>,
    pub version: Option<String>,
    pub packaging: Option<String>,
    pub parent: Option<ParentInfo>,
    pub dependencies: Vec<MavenDependency>,
    pub properties: StrMap<String>,
}

/// The mathematical value of a [`MavenPom`]; the properties are listed in
/// the order their names first occur.
pub struct MavenPomView {
    pub path: Seq<char>,
    pub group_id: Option<Seq<char>>,
    pub artifact_id: Option<Seq<char>>,
    pub version: Option<Seq<char>>,
    pub packaging: Option<Seq<char>>,
    pub parent: Option<ParentInfoView>,
    pub dependencies: Seq<MavenDependencyView>,
    pub properties: Seq<(Seq<char>, Seq<char>)>,
}

impl View for MavenPom {
    type V = MavenPomView;

    open spec fn view(&self) -> MavenPomView {
        MavenPomView {
            path: self.path@,
            group_id: opt_view(self.group_id),
            artifact_id: opt_view(self.artifact_id),
            version: opt_view(self.version),
            packaging: opt_view(self.packaging),
            parent: match self.parent {
                Some(p) => Some(p@),
                None => None,
            },
            dependencies: maven_views(self.dependencies@),
            properties: entries_view(self.properties@),
        }
    }
}

// ---------------------------------------------------------------------------
// The POM reader as a state machine over XML events
// ---------------------------------------------------------------------------

/// What the POM reader knows after some events.
pub struct PomState {
    /// The document read so far.
    pub pom: MavenPomView,
    /// Names of the elements open, outermost first.
    pub path: Seq<Seq<char>>,
    /// Text gathered since the last tag.
    pub text: Seq<char>,
    /// The dependency being read.
    pub dep: Option<MavenDependencyView>,
    pub in_dependencies: bool,
    pub in_parent: bool,
    pub parent_group_id: Option<Seq<char>>,
    pub parent_artifact_id: Option<Seq<char>>,
    pub parent_version: Option<Seq<char>>,
}

/// The state before the first event.
pub open spec fn pom_initial(path: Seq<char>) -> PomState {
    PomState {
        pom: MavenPomView {
            path,
            group_id: None,
            artifact_id: None,
            version: None,
            packaging: None,
            parent: None,
            dependencies: Seq::empty(),
            properties: Seq::empty(),
        },
        path: Seq::empty(),
        text: Seq::empty(),
        dep: None,
        in_dependencies: false,
        in_parent: false,
        parent_group_id: None,
        parent_artifact_id: None,
        parent_version: None,
    }
}

/// A start tag opens an element; `<dependencies>` and `<parent>` directly
/// under the root open those sections, and `<dependency>` inside the
/// dependencies section starts a new dependency.
pub open spec fn pom_start(st: PomState, name: Seq<char>) -> PomState {
    let path = st.path.push(name);
    let in_dependencies = if name == "dependencies"@ && path.len() == 2 {
        true
    } else {
        st.in_dependencies
    };
    let in_parent = if name == "parent"@ && path.len() == 2 {
        true
    } else {
        st.in_parent
    };
    let dep = if name == "dependency"@ && in_dependencies {
        Some(empty_dependency())
    } else {
        st.dep
    };
    PomState { path, in_dependencies, in_parent, dep, text: Seq::empty(), ..st }
}

/// A field of the dependency being read, by element name.
pub open spec fn dependency_field(d: MavenDependencyView, field: Seq<char>, text: Seq<char>) -> MavenDependencyView {
    if field == "groupId"@ {
        MavenDependencyView { group_id: text, ..d }
    } else if field == "artifactId"@ {
        MavenDependencyView { artifact_id: text, ..d }
    } else if field == "version"@ {
        MavenDependencyView { version: Some(text), ..d }
    } else if field == "scope"@ {
        MavenDependencyView { scope: Some(text), ..d }
    } else if field == "classifier"@ {
        MavenDependencyView { classifier: Some(text), ..d }
    } else if field == "type"@ {
        MavenDependencyView { type_: Some(text), ..d }
    } else if field == "optional"@ {
        MavenDependencyView { optional: text == "true"@, ..d }
    } else {
        d
    }
}

/// Whether the element being closed is a project-level field (not inside a
/// dependency, the dependencies section or the parent section).
pub open spec fn at_project_field(st: PomState, field: Seq<char>) -> bool {
    st.path.len() == 2 && st.path[1] == field && st.dep is None && !st.in_dependencies
        && !st.in_parent
}

/// Records the non-empty text of the element being closed, by its path.
pub open spec fn pom_record(st: PomState, text: Seq<char>) -> PomState {
    let p = st.path;
    if at_project_field(st, "groupId"@) {
        PomState { pom: MavenPomView { group_id: Some(text), ..st.pom }, ..st }
    } else if at_project_field(st, "artifactId"@) {
        PomState { pom: MavenPomView { artifact_id: Some(text), ..st.pom }, ..st }
    } else if at_project_field(st, "version"@) {
        PomState { pom: MavenPomView { version: Some(text), ..st.pom }, ..st }
    } else if p.len() == 2 && p[1] == "packaging"@ {
        PomState { pom: MavenPomView { packaging: Some(text), ..st.pom }, ..st }
    } else if p.len() == 3 && p[1] == "parent"@ && p[2] == "groupId"@ {
        PomState { parent_group_id: Some(text), ..st }
    } else if p.len() == 3 && p[1] == "parent"@ && p[2] == "artifactId"@ {
        PomState { parent_artifact_id: Some(text), ..st }
    } else if p.len() == 3 && p[1] == "parent"@ && p[2] == "version"@ {
        PomState { parent_version: Some(text), ..st }
    } else if st.dep is Some {
        if p.len() == 4 && p[1] == "dependencies"@ && p[2] == "dependency"@ {
            PomState { dep: Some(dependency_field(st.dep->0, p[3], text)), ..st }
        } else {
            st
        }
    } else if p.len() == 3 && p[1] == "properties"@ {
        PomState {
            pom: MavenPomView { properties: insert_entry(st.pom.properties, p[2], text), ..st.pom },
            ..st
        }
    } else {
        st
    }
}

/// Closing `</dependency>` adds the dependency being read when both its
/// group and artifact ids are non-empty.
pub open spec fn pom_close_dependency(st: PomState, name: Seq<char>) -> PomState {
    if name == "dependency"@ && st.dep is Some {
        let d = st.dep->0;
        if d.group_id.len() > 0 && d.artifact_id.len() > 0 {
            PomState {
                dep: None,
                pom: MavenPomView { dependencies: st.pom.dependencies.push(d), ..st.pom },
                ..st
            }
        } else {
            PomState { dep: None, ..st }
        }
    } else {
        st
    }
}

/// Closing `</parent>` leaves the parent section and sets the parent when
/// all three of its coordinates were read; they are forgotten either way.
pub open spec fn pom_close_parent(st: PomState, name: Seq<char>) -> PomState {
    if name == "parent"@ {
        let parent = match (st.parent_group_id, st.parent_artifact_id, st.parent_version) {
            (Some(g), Some(a), Some(v)) => Some(
                ParentInfoView { group_id: g, artifact_id: a, version: v },
            ),
            _ => st.pom.parent,
        };
        PomState {
            in_parent: false,
            parent_group_id: None,
            parent_artifact_id: None,
            parent_version: None,
            pom: MavenPomView { parent, ..st.pom },
            ..st
        }
    } else {
        st
    }
}

/// An end tag records the gathered text, closes a dependency, the
/// dependencies section or the parent section, and closes the element.
pub open spec fn pom_end(st: PomState, name: Seq<char>) -> PomState {
    let text = trim(st.text);
    let st1 = if text.len() > 0 {
        pom_record(st, text)
    } else {
        st
    };
    let st2 = pom_close_dependency(st1, name);
    let st3 = if name == "dependencies"@ {
        PomState { in_dependencies: false, ..st2 }
    } else {
        st2
    };
    let st4 = pom_close_parent(st3, name);
    PomState {
        path: if st4.path.len() > 0 {
            st4.path.drop_last()
        } else {
            st4.path
        },
        text: Seq::empty(),
        ..st4
    }
}

/// The text a reference stands for (nothing where it cannot be resolved).
pub open spec fn reference_text(name: Seq<char>) -> Seq<char> {
    match xml_unescaped("&"@ + name + ";"@) {
        Some(t) => t,
        None => Seq::empty(),
    }
}

/// The effect of one event that is neither the end of the document nor an
/// error: text and references are gathered; other events change nothing.
pub open spec fn pom_step(st: PomState, e: XmlEventView) -> PomState {
    match e {
        XmlEventView::Start(name) => pom_start(st, name),
        XmlEventView::End(name) => pom_end(st, name),
        XmlEventView::Text(t) => PomState { text: st.text + t, ..st },
        XmlEventView::Reference(name) => PomState { text: st.text + reference_text(name), ..st },
        _ => st,
    }
}

/// Whether an event ends the reading.
pub open spec fn is_final_event(e: XmlEventView) -> bool {
    e is Eof || e is Error
}

/// The state after at most `k` events of `source`, and whether reading
/// stopped at the end of the document or at an error.
pub open spec fn pom_run(source: Seq<char>, path: Seq<char>, k: nat) -> (PomState, bool)
    decreases k,
{
    if k == 0 {
        (pom_initial(path), false)
    } else {
        let (st, stopped) = pom_run(source, path, (k - 1) as nat);
        if stopped {
            (st, true)
        } else {
            let e = xml_event(source, (k - 1) as nat);
            if is_final_event(e) {
                (st, true)
            } else {
                (pom_step(st, e), false)
            }
        }
    }
}

/// The most events a document is read for: one per character, and one
/// more (every event but the last consumes at least one character).
pub open spec fn event_budget(source: Seq<char>) -> nat {
    (source.len() + 1) as nat
}

/// The POM that reading `xml` yields.
pub open spec fn parsed_pom(xml: Seq<char>, path: Seq<char>) -> MavenPomView {
    pom_run(xml, path, event_budget(xml)).0.pom
}

/// The dependency tree reader's state in executable form.
struct PomReader {
    pom: MavenPom,
    path: Vec<String>,
    text: String,
    dep: Option<MavenDependency>,
    in_dependencies: bool,
    in_parent: bool,
    parent_group_id: Option<String>,
    parent_artifact_id: Option<String>,
    parent_version: Option<String>,
}

impl View for PomReader {
    type V = PomState;

    closed spec fn view(&self) -> PomState {
        PomState {
            pom: self.pom@,
            path: self.path@.map_values(|s: String| s@),
            text: self.text@,
            dep: match self.dep {
                Some(d) => Some(d@),
                None => None,
            },
            in_dependencies: self.in_dependencies,
            in_parent: self.in_parent,
            parent_group_id: opt_view(self.parent_group_id),
            parent_artifact_id: opt_view(self.parent_artifact_id),
            parent_version: opt_view(self.parent_version),
        }
    }
}

/// A dependency with empty coordinates and nothing else set.
fn new_dependency() -> (d: MavenDependency)
    ensures
        d@ == empty_dependency(),
{
    MavenDependency {
        group_id: String::new(),
        artifact_id: String::new(),
        version: None,
        scope: None,
        classifier: None,
        type_: None,
        optional: false,
    }
}

/// Sets a field of a dependency by element name.
fn set_dependency_field(d: &mut MavenDependency, field: &str, text: &String)
    ensures
        final(d)@ == dependency_field(old(d)@, field@, text@),
{
    if str_eq(field, "groupId") {
        d.group_id = text.clone();
    } else if str_eq(field, "artifactId") {
        d.artifact_id = text.clone();
    } else if str_eq(field, "version") {
        d.version = Some(text.clone());
    } else if str_eq(field, "scope") {
        d.scope = Some(text.clone());
    } else if str_eq(field, "classifier") {
        d.classifier = Some(text.clone());
    } else if str_eq(field, "type") {
        d.type_ = Some(text.clone());
    } else if str_eq(field, "optional") {
        d.optional = str_eq(text.as_str(), "true");
    }
}

impl PomReader {
    fn new(path: String) -> (r: Self)
        ensures
            r@ == pom_initial(path@),
    {
        let r = PomReader {
            pom: MavenPom {
                path,
                group_id: None,
                artifact_id: None,
                version: None,
                packaging: None,
                parent: None,
                dependencies: Vec::new(),
                properties: StrMap::new(),
            },
            path: Vec::new(),
            text: String::new(),
            dep: None,
            in_dependencies: false,
            in_parent: false,
            parent_group_id: None,
            parent_artifact_id: None,
            parent_version: None,
        };
        assert(r@.path =~= Seq::<Seq<char>>::empty());
        assert(r@.pom.dependencies =~= Seq::<MavenDependencyView>::empty());
        assert(r@.pom.properties =~= Seq::<(Seq<char>, Seq<char>)>::empty());
        r
    }

    /// Whether the open element at depth `i` has the given name.
    fn path_is(&self, i: usize, name: &str) -> (b: bool)
        requires
            i < self@.path.len(),
        ensures
            b == (self@.path[i as int] == name@),
    {
        str_eq(self.path[i].as_str(), name)
    }

    fn at_project_field(&self, field: &str) -> (b: bool)
        ensures
            b == at_project_field(self@, field@),
    {
        self.path.len() == 2 && self.path_is(1, field) && self.dep.is_none() && !self.in_dependencies
            && !self.in_parent
    }

    fn start(&mut self, name: String)
        ensures
            final(self)@ == pom_start(old(self)@, name@),
    {
        let ghost old_path = self@.path;
        let is_dependencies = str_eq(name.as_str(), "dependencies");
        let is_parent = str_eq(name.as_str(), "parent");
        let is_dependency = str_eq(name.as_str(), "dependency");
        self.path.push(name);
        assert(self@.path =~= old_path.push(name@));
        if is_dependencies && self.path.len() == 2 {
            self.in_dependencies = true;
        }
        if is_parent && self.path.len() == 2 {
            self.in_parent = true;
        }
        if is_dependency && self.in_dependencies {
            self.dep = Some(new_dependency());
        }
        self.text = String::new();
    }

    fn record(&mut self, text: String)
        ensures
            final(self)@ == pom_record(old(self)@, text@),
    {
        let n = self.path.len();
        if self.at_project_field("groupId") {
            self.pom.group_id = Some(text);
        } else if self.at_project_field("artifactId") {
            self.pom.artifact_id = Some(text);
        } else if self.at_project_field("version") {
            self.pom.version = Some(text);
        } else if n == 2 && self.path_is(1, "packaging") {
            self.pom.packaging = Some(text);
        } else if n == 3 && self.path_is(1, "parent") && self.path_is(2, "groupId") {
            self.parent_group_id = Some(text);
        } else if n == 3 && self.path_is(1, "parent") && self.path_is(2, "artifactId") {
            self.parent_artifact_id = Some(text);
        } else if n == 3 && self.path_is(1, "parent") && self.path_is(2, "version") {
            self.parent_version = Some(text);
        } else if self.dep.is_some() {
            if n == 4 && self.path_is(1, "dependencies") && self.path_is(2, "dependency") {
                let field = self.path[3].clone();
                let mut d = self.dep.take().unwrap();
                set_dependency_field(&mut d, field.as_str(), &text);
                self.dep = Some(d);
            }
        } else if n == 3 && self.path_is(1, "properties") {
            let key = self.path[2].clone();
            let ghost before = self.pom.properties@;
            let ghost kv = key@;
            let ghost tv = text;
            self.pom.properties.insert(key, text);
            proof {
                lemma_insert_view(before, kv, tv);
            }
        }
    }

    fn end(&mut self, name: &str)
        ensures
            final(self)@ == pom_end(old(self)@, name@),
    {
        let text = trim_str(self.text.as_str());
        if !text.as_str().is_empty() {
            self.record(text);
        }
        if str_eq(name, "dependency") && self.dep.is_some() {
            let d = self.dep.take().unwrap();
            if !d.group_id.as_str().is_empty() && !d.artifact_id.as_str().is_empty() {
                let ghost before = self.pom.dependencies@;
                self.pom.dependencies.push(d);
                assert(maven_views(self.pom.dependencies@) =~= maven_views(before).push(d@));
            }
        }
        if str_eq(name, "dependencies") {
            self.in_dependencies = false;
        }
        if str_eq(name, "parent") {
            self.in_parent = false;
            let g = self.parent_group_id.take();
            let a = self.parent_artifact_id.take();
            let v = self.parent_version.take();
            match (g, a, v) {
                (Some(g), Some(a), Some(v)) => {
                    self.pom.parent = Some(ParentInfo { group_id: g, artifact_id: a, version: v });
                },
                _ => {},
            }
        }
        let ghost before_path = self@.path;
        if self.path.len() > 0 {
            self.path.pop();
            assert(self@.path =~= before_path.drop_last());
        }
        self.text = String::new();
    }

    fn step(&mut self, e: XmlEvent)
        ensures
            final(self)@ == pom_step(old(self)@, e@),
    {
        match e {
            XmlEvent::Start(name) => self.start(name),
            XmlEvent::End(name) => self.end(name.as_str()),
            XmlEvent::Text(t) => {
                self.text.append(t.as_str());
            },
            XmlEvent::Reference(name) => {
                let raw = concat3("&", name.as_str(), ";");
                match unescape(raw.as_str()) {
                    Some(t) => {
                        self.text.append(t.as_str());
                    },
                    None => {
                        assert(self.text@ + Seq::<char>::empty() =~= self.text@);
                    },
                }
            },
            _ => {},
        }
    }
}

impl MavenPom {
    /// Reads a POM from its XML text, stopping at the end of the document or
    /// at the first syntax error; what was read until then is kept.
    pub fn parse_from_string(xml: &str, path: String) -> (r: Result<MavenPom, String>)
        ensures
            r matches Ok(pom) && pom@ == parsed_pom(xml@, path@),
    {
        let mut reader = XmlReader::new(xml);
        let mut st = PomReader::new(path);
        let ghost p = path@;
        let n = chars_of(xml).len();
        let mut k: usize = 0;
        loop
            invariant_except_break
                reader.count() == k,
                reader.trims(),
                pom_run(xml@, p, k as nat) == (st@, false),
            invariant
                reader.source() == xml@,
                n == xml@.len(),
                k <= n,
            ensures
                st@ == pom_run(xml@, p, event_budget(xml@)).0,
            decreases n - k,
        {
            let e = reader.next_event();
            match e {
                XmlEvent::Eof | XmlEvent::Error => {
                    proof {
                        lemma_pom_run_stopped(xml@, p, (k + 1) as nat, event_budget(xml@));
                    }
                    break;
                },
                _ => {},
            }
            st.step(e);
            if k == n {
                break;
            }
            k = k + 1;
        }
        Ok(st.pom)
    }

    /// The value of `${name}` in the POM's properties when the version has
    /// that form and the property exists; the version itself otherwise.
    pub fn resolve_version(&self, version: &str) -> (r: String)
        ensures
            r@ == resolved_version(self@.properties, version@),
    {
        if !starts_with_str(version, "${") || !ends_with_str(version, "}") {
            return own(version);
        }
        let cs = chars_of(version);
        let n = cs.len();
        proof {
            reveal_strlit("${");
            reveal_strlit("}");
        }
        assert(n >= 3) by {
            assert(cs@.take(2)[1] == '{');
            assert(cs@.skip(n - 1)[0] == '}');
        }
        let name = string_of_range(cs.as_slice(), 2, n - 1);
        let found = self.properties.get(name.as_str());
        proof {
            lemma_lookup_view(self.properties@, name@);
        }
        match found {
            Some(v) => v.clone(),
            None => own(version),
        }
    }
}

/// The property name in a `${name}` reference, if the text has that form.
pub open spec fn property_reference(v: Seq<char>) -> Option<Seq<char>> {
    if starts_with(v, "${"@) && ends_with(v, "}"@) && v.len() >= 3 {
        Some(v.subrange(2, v.len() - 1))
    } else {
        None
    }
}

/// A version with a `${name}` property reference replaced by the
/// property's value when it is defined.
pub open spec fn resolved_version(props: Seq<(Seq<char>, Seq<char>)>, v: Seq<char>) -> Seq<char> {
    match property_reference(v) {
        Some(name) => match lookup(props, name) {
            Some(value) => value,
            None => v,
        },
        None => v,
    }
}

/// Once reading has stopped, further events change nothing.
proof fn lemma_pom_run_stopped(source: Seq<char>, path: Seq<char>, k: nat, m: nat)
    requires
        k <= m,
        pom_run(source, path, k).1,
    ensures
        pom_run(source, path, m) == pom_run(source, path, k),
    decreases m - k,
{
    if k < m {
        lemma_pom_run_stopped(source, path, k, (m - 1) as nat);
    }
}

// ---------------------------------------------------------------------------
// Resolver: pom.xml parsing and `mvn dependency:tree` output
// ---------------------------------------------------------------------------

/// The dependency named by a `groupId:artifactId:type:version[:scope]`
/// coordinate; fewer than four parts name none.
pub open spec fn maven_coordinate(coord: Seq<char>) -> Option<MavenDependencyView> {
    let parts = split_char(coord, ':');
    if parts.len() < 4 {
        None
    } else {
        Some(
            MavenDependencyView {
                group_id: parts[0],
                artifact_id: parts[1],
                version: Some(parts[3]),
                scope: if parts.len() >= 5 {
                    Some(parts[4])
                } else {
                    None
                },
                classifier: None,
                type_: Some(parts[2]),
                optional: false,
            },
        )
    }
}

/// The first word containing a colon.
pub open spec fn first_colon_word(ws: Seq<Seq<char>>) -> Option<Seq<char>>
    decreases ws.len(),
{
    if ws.len() == 0 {
        None
    } else if ws[0].contains(':') {
        Some(ws[0])
    } else {
        first_colon_word(ws.drop_first())
    }
}

/// The dependency on one line of `mvn dependency:tree` output: a tree line
/// (containing `+` or `\`) of at least three words whose first word with a
/// colon is a coordinate.
pub open spec fn tree_line_dependency(line: Seq<char>) -> Option<MavenDependencyView> {
    let ws = words(line);
    if (line.contains('+') || line.contains('\\')) && ws.len() >= 3 {
        match first_colon_word(ws) {
            Some(w) => maven_coordinate(w),
            None => None,
        }
    } else {
        None
    }
}

/// The dependencies listed in `mvn dependency:tree` output, in line order.
pub open spec fn tree_dependencies(output: Seq<char>) -> Seq<MavenDependencyView> {
    somes(lines(output).map_values(|l: Seq<char>| tree_line_dependency(l)))
}

/// Extracts dependencies from a Maven project.
#[derive(Debug, Clone)]
pub struct MavenResolver {
    pom_path: String,
    maven_cmd: String,
}

impl MavenResolver {
    /// The `pom.xml` resolved.
    pub closed spec fn pom_path_view(&self) -> Seq<char> {
        self.pom_path@
    }

    /// The command that runs Maven.
    pub closed spec fn maven_cmd_view(&self) -> Seq<char> {
        self.maven_cmd@
    }

    /// A resolver for the given `pom.xml`, run with the `mvn` command.
    pub fn new(pom_path: String) -> (r: Self)
        ensures
            r.pom_path_view() == pom_path@,
            r.maven_cmd_view() == "mvn"@,
    {
        MavenResolver { pom_path, maven_cmd: own("mvn") }
    }

    /// The same resolver run with another command (such as `mvnw`).
    pub fn with_maven_cmd(self, cmd: String) -> (r: Self)
        ensures
            r.pom_path_view() == self.pom_path_view(),
            r.maven_cmd_view() == cmd@,
    {
        MavenResolver { pom_path: self.pom_path, maven_cmd: cmd }
    }

    /// The `pom.xml` resolved.
    pub fn pom_path(&self) -> (r: &str)
        ensures
            r@ == self.pom_path_view(),
    {
        self.pom_path.as_str()
    }

    /// The command that runs Maven.
    pub fn maven_cmd(&self) -> (r: &str)
        ensures
            r@ == self.maven_cmd_view(),
    {
        self.maven_cmd.as_str()
    }

    /// The dependencies declared in the `pom.xml` whose text is given.
    pub fn parse_pom_dependencies(&self, pom_source: &str) -> (r: Vec<MavenDependency>)
        ensures
            maven_views(r@) == parsed_pom(pom_source@, self.pom_path_view()).dependencies,
    {
        let pom = MavenPom::parse_from_string(pom_source, self.pom_path.clone());
        match pom {
            Ok(p) => p.dependencies,
            Err(_) => Vec::new(),
        }
    }

    /// Parses a `groupId:artifactId:type:version[:scope]` coordinate.
    pub fn parse_dependency_coordinate(&self, coord: &str) -> (r: Option<MavenDependency>)
        ensures
            match r {
                Some(d) => maven_coordinate(coord@) == Some(d@),
                None => maven_coordinate(coord@) is None,
            },
    {
        let parts = split_on_char(coord, ':');
        let ghost pv = parts@.map_values(|p: String| p@);
        if parts.len() < 4 {
            return None;
        }
        assert(pv[0] == parts@[0]@ && pv[1] == parts@[1]@ && pv[2] == parts@[2]@ && pv[3]
            == parts@[3]@);
        let scope = if parts.len() >= 5 {
            assert(pv[4] == parts@[4]@);
            Some(parts[4].clone())
        } else {
            None
        };
        Some(
            MavenDependency {
                group_id: parts[0].clone(),
                artifact_id: parts[1].clone(),
                version: Some(parts[3].clone()),
                scope,
                classifier: None,
                type_: Some(parts[2].clone()),
                optional: false,
            },
        )
    }

    /// The dependency on one line of `mvn dependency:tree` output, if any.
    fn tree_line_dependency(&self, line: &str) -> (r: Option<MavenDependency>)
        ensures
            match r {
                Some(d) => tree_line_dependency(line@) == Some(d@),
                None => tree_line_dependency(line@) is None,
            },
    {
        let lc = chars_of(line);
        if !contains_char(lc.as_slice(), '+') && !contains_char(lc.as_slice(), '\\') {
            return None;
        }
        let parts = split_whitespace(line);
        let ghost ws = parts@.map_values(|p: String| p@);
        if parts.len() < 3 {
            return None;
        }
        let n = parts.len();
        assert(ws.skip(0) =~= ws);
        for i in 0..n
            invariant
                n == parts@.len(),
                ws == parts@.map_values(|p: String| p@),
                ws == words(line@),
                n >= 3,
                line@.contains('+') || line@.contains('\\'),
                first_colon_word(ws) == first_colon_word(ws.skip(i as int)),
        {
            let part = parts[i].as_str();
            let cs = chars_of(part);
            assert(ws.skip(i as int)[0] == ws[i as int]);
            assert(ws[i as int] == part@);
            assert(ws.skip(i as int).drop_first() =~= ws.skip(i + 1));
            if contains_char(cs.as_slice(), ':') {
                assert(first_colon_word(ws.skip(i as int)) == Some(ws[i as int]));
                return self.parse_dependency_coordinate(part);
            }
        }
        assert(ws.skip(n as int).len() == 0);
        None
    }

    /// Extracts the dependencies listed in `mvn dependency:tree` output, in
    /// line order.
    pub fn parse_dependency_tree(&self, output: &str) -> (r: Vec<MavenDependency>)
        ensures
            maven_views(r@) == tree_dependencies(output@),
    {
        let ls = lines_of(output);
        let ghost lv = ls@.map_values(|p: String| p@);
        let ghost f = |l: Seq<char>| tree_line_dependency(l);
        let mut deps: Vec<MavenDependency> = Vec::new();
        let n = ls.len();
        for i in 0..n
            invariant
                n == ls@.len(),
                lv == ls@.map_values(|p: String| p@),
                lv == lines(output@),
                f == (|l: Seq<char>| tree_line_dependency(l)),
                maven_views(deps@) == somes(lv.take(i as int).map_values(f)),
        {
            let ghost before = deps@;
            let d = self.tree_line_dependency(ls[i].as_str());
            assert(lv.take(i + 1).map_values(f).drop_last() =~= lv.take(i as int).map_values(f));
            assert(lv.take(i + 1).map_values(f).last() == tree_line_dependency(ls@[i as int]@));
            match d {
                Some(dep) => {
                    deps.push(dep);
                    assert(maven_views(deps@) =~= maven_views(before).push(deps@.last()@));
                },
                None => {},
            }
        }
        assert(lv.take(n as int) =~= lv);
        deps
    }

    /// The dependencies to report given what `mvn dependency:tree` printed
    /// (`None` when Maven was unavailable or failed): the listed
    /// dependencies when there are any, or `None` when the `pom.xml` itself
    /// must be parsed instead.
    pub fn dependencies_from_tool_output(&self, output: Option<&str>) -> (r: Option<
        Vec<MavenDependency>,
    >)
        ensures
            match output {
                Some(o) => match r {
                    Some(v) => tree_dependencies(o@).len() > 0 && maven_views(v@)
                        == tree_dependencies(o@),
                    None => tree_dependencies(o@).len() == 0,
                },
                None => r is None,
            },
    {
        match output {
            Some(o) => {
                let deps = self.parse_dependency_tree(o);
                if deps.len() > 0 {
                    Some(deps)
                } else {
                    None
                }
            },
            None => None,
        }
    }
}

/// Whether the search for POMs passes over a directory with this name:
/// build output (`target`) and the local repository (`.m2`).
pub fn is_skipped_directory(name: &str) -> (b: bool)
    ensures
        b == (name@ == "target"@ || name@ == ".m2"@),
{
    str_eq(name, "target") || str_eq(name, ".m2")
}

/// Whether a file is a POM by its name.
pub fn is_pom_file_name(name: &str) -> (b: bool)
    ensures
        b == (name@ == "pom.xml"@),
{
    str_eq(name, "pom.xml")
}

/// What holds of every state of the reading: every recorded dependency has
/// a non-empty group and artifact, and a recorded parent, like each parent
/// coordinate read so far, is non-empty.
pub open spec fn pom_state_ok(st: PomState) -> bool {
    &&& forall|i: int|
        0 <= i < st.pom.dependencies.len() ==> (#[trigger] st.pom.dependencies[i]).group_id.len() > 0
            && st.pom.dependencies[i].artifact_id.len() > 0
    &&& (st.pom.parent matches Some(p) ==> p.group_id.len() > 0 && p.artifact_id.len() > 0 && p.version.len() > 0)
    &&& (st.parent_group_id matches Some(g) ==> g.len() > 0)
    &&& (st.parent_artifact_id matches Some(a) ==> a.len() > 0)
    &&& (st.parent_version matches Some(v) ==> v.len() > 0)
}

proof fn lemma_pom_step_ok(st: PomState, e: XmlEventView)
    requires
        pom_state_ok(st),
    ensures
        pom_state_ok(pom_step(st, e)),
{
    match e {
        XmlEventView::End(name) => {
            let text = trim(st.text);
            let st1 = if text.len() > 0 {
                pom_record(st, text)
            } else {
                st
            };
            assert(pom_state_ok(st1));
            let st2 = pom_close_dependency(st1, name);
            if name == "dependency"@ && st1.dep is Some {
                let d = st1.dep->0;
                if d.group_id.len() > 0 && d.artifact_id.len() > 0 {
                    assert forall|i: int| 0 <= i < st2.pom.dependencies.len() implies (#[trigger] st2.pom.dependencies[i]).group_id.len()
                        > 0 && st2.pom.dependencies[i].artifact_id.len() > 0 by {
                        if i < st1.pom.dependencies.len() {
                            assert(st2.pom.dependencies[i] == st1.pom.dependencies[i]);
                        }
                    }
                }
            }
            assert(pom_state_ok(st2));
        },
        _ => {},
    }
}

/// Every state of the reading, after any number of events, records only
/// dependencies with a non-empty group and artifact, and a parent only when
/// its group, artifact and version are all non-empty.
pub proof fn law_pom_run_ok(source: Seq<char>, path: Seq<char>, k: nat)
    ensures
        pom_state_ok(pom_run(source, path, k).0),
    decreases k,
{
    if k > 0 {
        law_pom_run_ok(source, path, (k - 1) as nat);
        let (st, stopped) = pom_run(source, path, (k - 1) as nat);
        if !stopped {
            lemma_pom_step_ok(st, xml_event(source, (k - 1) as nat));
        }
    }
}

/// The dependencies are the root's own, in document order: one event adds
/// at most one dependency, at the end of the list, and only at a closing
/// `</dependency>`; a dependency is started only by an opening
/// `<dependency>` inside the dependencies section, and that section is
/// opened only by a `<dependencies>` that is a child of the root.
pub proof fn law_pom_step_dependencies(st: PomState, e: XmlEventView)
    ensures
        pom_step(st, e).pom.dependencies == st.pom.dependencies || (e == XmlEventView::End("dependency"@)
            && exists|d: MavenDependencyView|
            pom_step(st, e).pom.dependencies == st.pom.dependencies.push(d)),
        pom_step(st, e).dep is Some && st.dep is None ==> e == XmlEventView::Start("dependency"@) && pom_step(
            st,
            e,
        ).in_dependencies,
        pom_step(st, e).in_dependencies && !st.in_dependencies ==> e == XmlEventView::Start("dependencies"@)
            && st.path.len() == 1,
{
    match e {
        XmlEventView::End(name) => {
            let text = trim(st.text);
            let st1 = if text.len() > 0 {
                pom_record(st, text)
            } else {
                st
            };
            assert(st1.pom.dependencies == st.pom.dependencies);
            if name == "dependency"@ && st1.dep is Some {
                let d = st1.dep->0;
                if d.group_id.len() > 0 && d.artifact_id.len() > 0 {
                    assert(pom_step(st, e).pom.dependencies == st.pom.dependencies.push(d));
                }
            }
        },
        _ => {},
    }
}

/// The parsed POM lists only dependencies with a non-empty group and
/// artifact, and has a parent only when the parent's group, artifact and
/// version are all non-empty.
pub proof fn law_parsed_pom_ok(xml: Seq<char>, path: Seq<char>)
    ensures
        forall|i: int|
            0 <= i < parsed_pom(xml, path).dependencies.len() ==> (#[trigger] parsed_pom(xml, path).dependencies[i]).group_id.len()
                > 0 && parsed_pom(xml, path).dependencies[i].artifact_id.len() > 0,
        parsed_pom(xml, path).parent matches Some(p) ==> p.group_id.len() > 0 && p.artifact_id.len() > 0
            && p.version.len() > 0,
{
    law_pom_run_ok(xml, path, event_budget(xml));
}

proof fn lemma_first_colon_word(ws: Seq<Seq<char>>, k: int)
    requires
        0 <= k < ws.len(),
        ws[k].contains(':'),
        forall|m: int| 0 <= m < k ==> !(#[trigger] ws[m]).contains(':'),
    ensures
        first_colon_word(ws) == Some(ws[k]),
    decreases k,
{
    if k > 0 {
        assert(!ws[0].contains(':'));
        let rest = ws.drop_first();
        assert forall|m: int| 0 <= m < k - 1 implies !(#[trigger] rest[m]).contains(':') by {
            assert(rest[m] == ws[m + 1]);
        }
        lemma_first_colon_word(rest, k - 1);
    }
}

/// A tree line of `mvn dependency:tree` output (it holds `+` or `\` and at
/// least three words) gives the coordinate in its first word with a colon,
/// `group:artifact:type:version[:scope]`: exactly those parts, the version
/// and type included.
pub proof fn law_tree_line_coordinate(line: Seq<char>, k: int)
    requires
        line.contains('+') || line.contains('\\'),
        words(line).len() >= 3,
        0 <= k < words(line).len(),
        words(line)[k].contains(':'),
        forall|m: int| 0 <= m < k ==> !(#[trigger] words(line)[m]).contains(':'),
        split_char(words(line)[k], ':').len() >= 4,
    ensures
        ({
            let parts = split_char(words(line)[k], ':');
            tree_line_dependency(line) matches Some(d) && d.group_id == parts[0] && d.artifact_id == parts[1]
                && d.type_ == Some(parts[2]) && d.version == Some(parts[3]) && d.scope == (if parts.len() >= 5 {
                Some(parts[4])
            } else {
                None
            }) && d.classifier is None && !d.optional
        }),
{
    lemma_first_colon_word(words(line), k);
}

/// Every dependency on a line of `mvn dependency:tree` output is among the
/// dependencies read from the output.
pub proof fn law_tree_output_keeps_lines(output: Seq<char>, i: int)
    requires
        0 <= i < lines(output).len(),
    ensures
        tree_line_dependency(lines(output)[i]) matches Some(d) ==> tree_dependencies(output).contains(d),
{
    let s = lines(output).map_values(|l: Seq<char>| tree_line_dependency(l));
    if let Some(d) = tree_line_dependency(lines(output)[i]) {
        assert(s[i] == Some(d));
        crate::text::lemma_somes_contains(s, i, d);
    }
}

} // verus!

//! The Java provider: condition types, version ranges, and the decisions
//! taken on each request.

use vstd::prelude::*;

use vstd::utf8::encode_utf8;

use crate::buildtool::detector::BuildTool;
use crate::buildtool::gradle::{
    gradle_identifier, gradle_views, GradleDependency, GradleDependencyView, GradleResolver,
};
use crate::buildtool::maven::{maven_identifier, maven_views, MavenDependency, MavenDependencyView};
use crate::java_graph::extract::file_info_of;
use crate::syntax::java_tree;
use crate::java_graph::model::FileInfoView;
use crate::java_graph::type_resolver::{
    hierarchy_files, index_files, resolve_file_annotations, TypeResolver, TypeResolverView,
};
use crate::java_graph::query::{
    compiled_from, default_options, filter_elements, filter_pattern, looks_like_regex,
    referenced_results, regex_body, regex_compiles, result_views, AnnotationFilter, LocationType, Pattern,
    QueryEngine, QueryResult, QueryResultView, ReferencedQuery,
};
use crate::provider::dependency_lines::{
    dependency_line_views, gradle_dependencies_with_lines, gradle_dependency_pattern, gradle_found,
    maven_dependencies_with_lines, pom_dependency_lines,
};
use crate::strmap::{entries_view, insert_entry, keys_distinct, lemma_insert_view, StrMap};
use crate::text::{
    concat2, concat3, i64_to_string, is_empty_str, last_index_of, last_index_of_char, lines,
    lowercase, pad_left, right_aligned, signed_decimal, starts_with, starts_with_str, usize_to_string,
    decimal, lines_of, opt_view, own, replace_char, replace_char_str, somes,
    split_char, split_on_char, str_eq, to_lowercase,
};

verus! {

// ---------------------------------------------------------------------------
// Versions
// ---------------------------------------------------------------------------

/// Whether a character is an ASCII decimal digit.
pub open spec fn is_digit(c: char) -> bool {
    '0' <= c && c <= '9'
}

/// The value of a decimal digit character.
pub open spec fn digit_value(c: char) -> nat {
    (c as u32 - '0' as u32) as nat
}

/// The value of a string of decimal digits.
pub open spec fn digits_value(s: Seq<char>) -> nat
    decreases s.len(),
{
    if s.len() == 0 {
        0
    } else {
        digits_value(s.drop_last()) * 10 + digit_value(s.last())
    }
}

/// The text after one leading `+`, when something follows it.
pub open spec fn sign_stripped(s: Seq<char>) -> Seq<char> {
    if s.len() > 1 && s[0] == '+' {
        s.drop_first()
    } else {
        s
    }
}

/// Whether every character is a decimal digit.
pub open spec fn all_digits(d: Seq<char>) -> bool {
    forall|i: int| 0 <= i < d.len() ==> is_digit(#[trigger] d[i])
}

/// What `str::parse::<u32>` gives: an optional `+` (not alone) followed by
/// at least one decimal digit, with a value that fits in a `u32`.
pub open spec fn parsed_u32(s: Seq<char>) -> Option<u32> {
    let d = sign_stripped(s);
    if d.len() > 0 && all_digits(d) && digits_value(d) <= u32::MAX {
        Some(digits_value(d) as u32)
    } else {
        None
    }
}

proof fn lemma_digits_value_grows(s: Seq<char>, k: int)
    requires
        0 <= k <= s.len(),
    ensures
        digits_value(s.take(k)) <= digits_value(s),
    decreases s.len(),
{
    if k < s.len() {
        assert(s.drop_last().take(k) =~= s.take(k));
        lemma_digits_value_grows(s.drop_last(), k);
    } else {
        assert(s.take(k) =~= s);
    }
}

/// Parses a decimal `u32` as `str::parse` does.
pub fn parse_u32(s: &str) -> (r: Option<u32>)
    ensures
        r == parsed_u32(s@),
{
    let cs = crate::text::chars_of(s);
    let n = cs.len();
    let start: usize = if n > 1 && cs[0] == '+' {
        1
    } else {
        0
    };
    let ghost d = sign_stripped(s@);
    assert(d =~= cs@.skip(start as int));
    if start == n {
        return None;
    }
    let mut acc: u64 = 0;
    let mut i: usize = start;
    while i < n
        invariant
            start <= i <= n,
            start < n,
            n == cs@.len(),
            cs@ == s@,
            d =~= cs@.skip(start as int),
            d == sign_stripped(s@),
            forall|j: int| 0 <= j < i - start ==> is_digit(#[trigger] d[j]),
            acc == digits_value(d.take(i - start)),
            acc <= u32::MAX,
        decreases n - i,
    {
        let c = cs[i];
        if !('0' <= c && c <= '9') {
            assert(!is_digit(d[i - start]));
            assert(!all_digits(d));
            return None;
        }
        let v: u64 = (c as u32 - '0' as u32) as u64;
        assert(d.take(i - start + 1).drop_last() =~= d.take(i - start));
        assert(d.take(i - start + 1).last() == c);
        let next = acc * 10 + v;
        if next > 4294967295 {
            proof {
                lemma_digits_value_grows(d, i - start + 1);
            }
            return None;
        }
        acc = next;
        i = i + 1;
    }
    assert(d.take(n - start) =~= d);
    assert(all_digits(d));
    Some(acc as u32)
}

/// The numeric parts of a version: the `.`-separated pieces that parse as
/// `u32`, in order; the others are skipped.
pub open spec fn version_parts(v: Seq<char>) -> Seq<u32> {
    somes(split_char(v, '.').map_values(|p: Seq<char>| parsed_u32(p)))
}

/// The part at `i`, or zero past the end.
pub open spec fn part_or_zero(p: Seq<u32>, i: int) -> u32 {
    if 0 <= i < p.len() {
        p[i]
    } else {
        0
    }
}

/// The longer of two lengths.
pub open spec fn longer(a: Seq<u32>, b: Seq<u32>) -> int {
    if a.len() > b.len() {
        a.len() as int
    } else {
        b.len() as int
    }
}

/// Compares two part lists from position `i` on, the shorter padded with
/// zeros: `-1`, `0` or `1`.
pub open spec fn compare_parts(a: Seq<u32>, b: Seq<u32>, i: int) -> i32
    decreases longer(a, b) - i,
{
    if i < 0 || i >= longer(a, b) {
        0i32
    } else if part_or_zero(a, i) < part_or_zero(b, i) {
        -1i32
    } else if part_or_zero(a, i) > part_or_zero(b, i) {
        1i32
    } else {
        compare_parts(a, b, i + 1)
    }
}

/// How two versions compare: `-1` when the first is lower, `0` when equal,
/// `1` when higher, part by part.
pub open spec fn version_order(v1: Seq<char>, v2: Seq<char>) -> i32 {
    compare_parts(version_parts(v1), version_parts(v2), 0)
}

/// The numeric parts of a version.
fn parse_version(v: &str) -> (r: Vec<u32>)
    ensures
        r@ == version_parts(v@),
{
    let pieces = split_on_char(v, '.');
    let ghost ps = pieces@.map_values(|p: String| p@);
    let ghost parsed = ps.map_values(|p: Seq<char>| parsed_u32(p));
    let mut out: Vec<u32> = Vec::new();
    let n = pieces.len();
    assert(parsed.take(0) =~= Seq::<Option<u32>>::empty());
    for k in 0..n
        invariant
            n == pieces@.len(),
            ps == pieces@.map_values(|p: String| p@),
            parsed == ps.map_values(|p: Seq<char>| parsed_u32(p)),
            out@ == somes(parsed.take(k as int)),
    {
        assert(parsed.take(k + 1).drop_last() =~= parsed.take(k as int));
        assert(parsed.take(k + 1).last() == parsed_u32(pieces@[k as int]@));
        match parse_u32(pieces[k].as_str()) {
            Some(x) => out.push(x),
            None => {},
        }
    }
    assert(parsed.take(n as int) =~= parsed);
    out
}

/// Compares two versions part by part, the shorter padded with zeros:
/// `-1` when `v1` is lower, `0` when equal, `1` when higher. Parts that are
/// not numbers are skipped.
pub fn compare_versions(v1: &str, v2: &str) -> (r: i32)
    ensures
        r == version_order(v1@, v2@),
{
    let parts1 = parse_version(v1);
    let parts2 = parse_version(v2);
    let max_len = if parts1.len() > parts2.len() {
        parts1.len()
    } else {
        parts2.len()
    };
    let ghost a = parts1@;
    let ghost b = parts2@;
    for i in 0..max_len
        invariant
            a == parts1@,
            b == parts2@,
            a == version_parts(v1@),
            b == version_parts(v2@),
            max_len == longer(a, b),
            compare_parts(a, b, 0) == compare_parts(a, b, i as int),
    {
        let p1 = if i < parts1.len() {
            parts1[i]
        } else {
            0
        };
        let p2 = if i < parts2.len() {
            parts2[i]
        } else {
            0
        };
        assert(part_or_zero(a, i as int) == p1 && part_or_zero(b, i as int) == p2);
        if p1 < p2 {
            assert(compare_parts(a, b, i as int) == -1);
            return -1;
        } else if p1 > p2 {
            assert(compare_parts(a, b, i as int) == 1);
            return 1;
        }
    }
    0
}

/// Whether a version lies within the bounds given, both inclusive.
pub open spec fn in_range(v: Seq<char>, lower: Option<Seq<char>>, upper: Option<Seq<char>>) -> bool {
    &&& (lower matches Some(l) ==> version_order(v, l) >= 0)
    &&& (upper matches Some(u) ==> version_order(v, u) <= 0)
}

/// The view of an optional string reference.
pub open spec fn opt_str_view(o: Option<&str>) -> Option<Seq<char>> {
    match o {
        Some(s) => Some(s@),
        None => None,
    }
}

/// Whether a version lies within the bounds given, both inclusive.
pub fn version_in_range(version: &str, lowerbound: Option<&str>, upperbound: Option<&str>) -> (b: bool)
    ensures
        b == in_range(version@, opt_str_view(lowerbound), opt_str_view(upperbound)),
{
    if let Some(lower) = lowerbound {
        if compare_versions(version, lower) < 0 {
            return false;
        }
    }
    if let Some(upper) = upperbound {
        if compare_versions(version, upper) > 0 {
            return false;
        }
    }
    true
}

proof fn lemma_compare_reflexive(a: Seq<u32>, i: int)
    requires
        0 <= i,
    ensures
        compare_parts(a, a, i) == 0,
    decreases longer(a, a) - i,
{
    if i < longer(a, a) {
        lemma_compare_reflexive(a, i + 1);
    }
}

proof fn lemma_compare_antisymmetric(a: Seq<u32>, b: Seq<u32>, i: int)
    requires
        0 <= i,
    ensures
        compare_parts(a, b, i) == -(compare_parts(b, a, i) as int),
    decreases longer(a, b) - i,
{
    if i < longer(a, b) {
        lemma_compare_antisymmetric(a, b, i + 1);
    }
}

proof fn lemma_compare_transitive(a: Seq<u32>, b: Seq<u32>, c: Seq<u32>, i: int)
    requires
        0 <= i,
        compare_parts(a, b, i) <= 0,
        compare_parts(b, c, i) <= 0,
    ensures
        compare_parts(a, c, i) <= 0,
    decreases a.len() + b.len() + c.len() - i,
{
    if i < longer(a, c) {
        if part_or_zero(a, i) == part_or_zero(b, i) && part_or_zero(b, i) == part_or_zero(c, i) {
            lemma_compare_transitive(a, b, c, i + 1);
        }
    }
}

/// Every version is equal to itself.
pub proof fn law_version_order_reflexive(v: Seq<char>)
    ensures
        version_order(v, v) == 0,
{
    lemma_compare_reflexive(version_parts(v), 0);
}

/// Swapping two versions negates their comparison.
pub proof fn law_version_order_antisymmetric(v1: Seq<char>, v2: Seq<char>)
    ensures
        version_order(v1, v2) == -(version_order(v2, v1) as int),
{
    lemma_compare_antisymmetric(version_parts(v1), version_parts(v2), 0);
}

/// "At most" between versions is transitive.
pub proof fn law_version_order_transitive(v1: Seq<char>, v2: Seq<char>, v3: Seq<char>)
    requires
        version_order(v1, v2) <= 0,
        version_order(v2, v3) <= 0,
    ensures
        version_order(v1, v3) <= 0,
{
    lemma_compare_transitive(version_parts(v1), version_parts(v2), version_parts(v3), 0);
}

/// A bound is within the range it starts or ends.
pub proof fn law_bounds_in_range(lower: Seq<char>, upper: Seq<char>)
    requires
        version_order(lower, upper) <= 0,
    ensures
        in_range(lower, Some(lower), Some(upper)),
        in_range(upper, Some(lower), Some(upper)),
{
    law_version_order_reflexive(lower);
    law_version_order_reflexive(upper);
    law_version_order_antisymmetric(lower, upper);
}

// ---------------------------------------------------------------------------
// Conditions
// ---------------------------------------------------------------------------

/// A rule condition as the analyzer sends it. The rule's tags and template,
/// which the provider never reads, are not kept.
#[derive(Debug)]
pub struct ConditionWrapper {
    pub rule_id: String,
    pub referenced: Option<ReferencedCondition>,
    pub dependency: Option<DependencyCondition>,
}

/// A `referenced` condition: a pattern and where to look for it.
#[derive(Debug)]
pub struct ReferencedCondition {
    pub pattern: String,
    pub location: String,
    pub annotated: Option<AnnotatedCondition>,
}

/// The location looked at when a condition names none.
pub fn default_location() -> (r: String)
    ensures
        r@ == "TYPE"@,
{
    own("TYPE")
}

/// An annotation the referenced elements must carry.
#[derive(Debug)]
pub struct AnnotatedCondition {
    pub pattern: Option<String>,
    pub elements: Vec<AnnotationElement>,
}

/// A required annotation element value.
#[derive(Debug)]
pub struct AnnotationElement {
    pub name: String,
    pub value: String,
}

/// A `dependency` condition: a dependency by `group.artifact` name, with
/// optional inclusive version bounds.
#[derive(Debug)]
pub struct DependencyCondition {
    pub name: String,
    pub lowerbound: Option<String>,
    pub upperbound: Option<String>,
}

impl DependencyCondition {
    /// A copy of the condition.
    pub fn duplicate(&self) -> (r: DependencyCondition)
        ensures
            r.name@ == self.name@,
            opt_view(r.lowerbound) == opt_view(self.lowerbound),
            opt_view(r.upperbound) == opt_view(self.upperbound),
    {
        DependencyCondition {
            name: own(self.name.as_str()),
            lowerbound: own_opt(&self.lowerbound),
            upperbound: own_opt(&self.upperbound),
        }
    }
}

/// A copy of an optional string.
fn own_opt(o: &Option<String>) -> (r: Option<String>)
    ensures
        opt_view(r) == opt_view(*o),
{
    match o {
        Some(s) => Some(own(s.as_str())),
        None => None,
    }
}

/// The location type a lower-case location name stands for.
pub open spec fn location_named(s: Seq<char>) -> Option<LocationType> {
    if s == "import"@ {
        Some(LocationType::Import)
    } else if s == "package"@ {
        Some(LocationType::Package)
    } else if s == "type"@ {
        Some(LocationType::Type)
    } else if s == "class"@ {
        Some(LocationType::Class)
    } else if s == "field"@ || s == "field_declaration"@ || s == "fielddeclaration"@ {
        Some(LocationType::Field)
    } else if s == "method"@ {
        Some(LocationType::Method)
    } else if s == "enum"@ {
        Some(LocationType::Enum)
    } else if s == "inheritance"@ {
        Some(LocationType::Inheritance)
    } else if s == "implements"@ || s == "implements_type"@ || s == "implementstype"@ {
        Some(LocationType::ImplementsType)
    } else if s == "method_call"@ || s == "methodcall"@ {
        Some(LocationType::MethodCall)
    } else if s == "constructor_call"@ || s == "constructorcall"@ {
        Some(LocationType::ConstructorCall)
    } else if s == "annotation"@ {
        Some(LocationType::Annotation)
    } else if s == "variable"@ || s == "variable_declaration"@ || s == "variabledeclaration"@ {
        Some(LocationType::Variable)
    } else if s == "return_type"@ || s == "returntype"@ {
        Some(LocationType::ReturnType)
    } else {
        None
    }
}

/// Reads a location name, in any letter case: `type` looks at class,
/// interface and enum declarations, `class` at class declarations only.
pub fn parse_location_type(location: &str) -> (r: Result<LocationType, String>)
    ensures
        match r {
            Ok(t) => location_named(lowercase(location@)) == Some(t),
            Err(e) => location_named(lowercase(location@)) is None && e@ == "Unknown location type: "@
                + location@,
        },
{
    let l = to_lowercase(location);
    let s = l.as_str();
    if str_eq(s, "import") {
        Ok(LocationType::Import)
    } else if str_eq(s, "package") {
        Ok(LocationType::Package)
    } else if str_eq(s, "type") {
        Ok(LocationType::Type)
    } else if str_eq(s, "class") {
        Ok(LocationType::Class)
    } else if str_eq(s, "field") || str_eq(s, "field_declaration") || str_eq(s, "fielddeclaration") {
        Ok(LocationType::Field)
    } else if str_eq(s, "method") {
        Ok(LocationType::Method)
    } else if str_eq(s, "enum") {
        Ok(LocationType::Enum)
    } else if str_eq(s, "inheritance") {
        Ok(LocationType::Inheritance)
    } else if str_eq(s, "implements") || str_eq(s, "implements_type") || str_eq(s, "implementstype") {
        Ok(LocationType::ImplementsType)
    } else if str_eq(s, "method_call") || str_eq(s, "methodcall") {
        Ok(LocationType::MethodCall)
    } else if str_eq(s, "constructor_call") || str_eq(s, "constructorcall") {
        Ok(LocationType::ConstructorCall)
    } else if str_eq(s, "annotation") {
        Ok(LocationType::Annotation)
    } else if str_eq(s, "variable") || str_eq(s, "variable_declaration") || str_eq(s, "variabledeclaration") {
        Ok(LocationType::Variable)
    } else if str_eq(s, "return_type") || str_eq(s, "returntype") {
        Ok(LocationType::ReturnType)
    } else {
        Err(concat2("Unknown location type: ", location))
    }
}

/// The element requirements of an annotation condition, each name stored
/// once with its last value.
pub open spec fn elements_inserted(es: Seq<AnnotationElement>) -> Seq<(Seq<char>, Seq<char>)>
    decreases es.len(),
{
    if es.len() == 0 {
        Seq::empty()
    } else {
        insert_entry(elements_inserted(es.drop_last()), es.last().name@, es.last().value@)
    }
}

/// The annotation filter of a query for an annotation condition.
pub fn annotation_filter_of(c: &AnnotatedCondition) -> (f: AnnotationFilter)
    ensures
        filter_pattern(f) == opt_view(c.pattern),
        filter_elements(f) == elements_inserted(c.elements@),
{
    let mut elements: StrMap<String> = StrMap::new();
    let n = c.elements.len();
    assert(entries_view(elements@) =~= elements_inserted(c.elements@.take(0)));
    for k in 0..n
        invariant
            n == c.elements@.len(),
            keys_distinct(elements@),
            entries_view(elements@) == elements_inserted(c.elements@.take(k as int)),
    {
        let e = &c.elements[k];
        let ghost before = elements@;
        let v = own(e.value.as_str());
        let ghost vv = v;
        elements.insert(own(e.name.as_str()), v);
        proof {
            lemma_insert_view(before, e.name@, vv);
            assert(c.elements@.take(k + 1).drop_last() =~= c.elements@.take(k as int));
        }
    }
    assert(c.elements@.take(n as int) =~= c.elements@);
    AnnotationFilter { pattern: own_opt(&c.pattern), elements }
}

// ---------------------------------------------------------------------------
// Incidents and responses
// ---------------------------------------------------------------------------

/// A place where a condition matched.
#[derive(Debug)]
pub struct Incident {
    pub file_uri: String,
    pub line_number: usize,
    /// The line and column where a query matched.
    pub code_location: Option<(usize, usize)>,
    /// Template variables, by name.
    pub variables: Vec<(String, String)>,
    pub is_dependency_incident: bool,
}

/// The mathematical value of an [`Incident`].
pub struct IncidentView {
    pub file_uri: Seq<char>,
    pub line_number: usize,
    pub code_location: Option<(usize, usize)>,
    pub variables: Seq<(Seq<char>, Seq<char>)>,
    pub is_dependency_incident: bool,
}

impl View for Incident {
    type V = IncidentView;

    open spec fn view(&self) -> IncidentView {
        IncidentView {
            file_uri: self.file_uri@,
            line_number: self.line_number,
            code_location: self.code_location,
            variables: self.variables@.map_values(|p: (String, String)| (p.0@, p.1@)),
            is_dependency_incident: self.is_dependency_incident,
        }
    }
}

/// The views of a list of incidents.
pub open spec fn incident_views(v: Seq<Incident>) -> Seq<IncidentView> {
    v.map_values(|i: Incident| i@)
}

/// The incident of a query result: its file as a `file://` URI, its line,
/// and its line and column as the code location.
pub open spec fn query_incident(q: QueryResultView) -> IncidentView {
    IncidentView {
        file_uri: "file://"@ + q.file_path,
        line_number: q.line_number,
        code_location: Some((q.line_number, q.column)),
        variables: Seq::empty(),
        is_dependency_incident: false,
    }
}

/// The incidents of query results, in order.
pub fn results_to_incidents(results: Vec<QueryResult>) -> (r: Vec<Incident>)
    ensures
        incident_views(r@) == result_views(results@).map_values(|q: QueryResultView| query_incident(q)),
{
    let mut out: Vec<Incident> = Vec::new();
    let n = results.len();
    for k in 0..n
        invariant
            n == results@.len(),
            incident_views(out@) == result_views(results@).take(k as int).map_values(
                |q: QueryResultView| query_incident(q),
            ),
    {
        let q = &results[k];
        let ghost before = out@;
        let inc = Incident {
            file_uri: concat2("file://", q.file_path.as_str()),
            line_number: q.line_number,
            code_location: Some((q.line_number, q.column)),
            variables: Vec::new(),
            is_dependency_incident: false,
        };
        assert(inc@.variables =~= Seq::<(Seq<char>, Seq<char>)>::empty());
        out.push(inc);
        assert(incident_views(out@) =~= incident_views(before).push(inc@));
        assert(result_views(results@).take(k + 1) =~= result_views(results@).take(k as int).push(q@));
    }
    assert(result_views(results@).take(n as int) =~= result_views(results@));
    out
}

/// The incident of a matched dependency: the build file as a `file://`
/// URI, the line, and the dependency's name and version as variables.
pub open spec fn dependency_incident(path: Seq<char>, line: u32, name: Seq<char>, version: Seq<char>) -> IncidentView {
    IncidentView {
        file_uri: "file://"@ + path,
        line_number: line as usize,
        code_location: None,
        variables: seq![("name"@, name), ("version"@, version)],
        is_dependency_incident: true,
    }
}

/// The incident of a matched dependency.
pub fn create_dependency_incident(file_path: &str, line_num: u32, dep_name: &str, version: &str) -> (r: Incident)
    ensures
        r@ == dependency_incident(file_path@, line_num, dep_name@, version@),
{
    let mut variables: Vec<(String, String)> = Vec::new();
    variables.push((own("name"), own(dep_name)));
    variables.push((own("version"), own(version)));
    let r = Incident {
        file_uri: concat2("file://", file_path),
        line_number: line_num as usize,
        code_location: None,
        variables,
        is_dependency_incident: true,
    };
    assert(r@.variables =~= seq![("name"@, dep_name@), ("version"@, version@)]);
    r
}

/// What an evaluation found.
#[derive(Debug)]
pub struct EvaluateResult {
    pub matched: bool,
    pub incidents: Vec<Incident>,
}

/// The answer to an evaluation request.
#[derive(Debug)]
pub struct EvaluateResponse {
    pub error: String,
    pub successful: bool,
    pub response: Option<EvaluateResult>,
}

/// The mathematical value of an [`EvaluateResponse`].
pub struct EvaluateResponseView {
    pub error: Seq<char>,
    pub successful: bool,
    /// Whether it matched, and the incidents.
    pub response: Option<(bool, Seq<IncidentView>)>,
}

impl View for EvaluateResponse {
    type V = EvaluateResponseView;

    open spec fn view(&self) -> EvaluateResponseView {
        EvaluateResponseView {
            error: self.error@,
            successful: self.successful,
            response: match self.response {
                Some(r) => Some((r.matched, incident_views(r.incidents@))),
                None => None,
            },
        }
    }
}

/// A failed evaluation with its message.
pub open spec fn evaluate_failure(msg: Seq<char>) -> EvaluateResponseView {
    EvaluateResponseView { error: msg, successful: false, response: None }
}

/// A successful evaluation with its incidents; it matched when there are
/// any.
pub open spec fn evaluate_success(incidents: Seq<IncidentView>) -> EvaluateResponseView {
    EvaluateResponseView { error: Seq::empty(), successful: true, response: Some((incidents.len() > 0, incidents)) }
}

fn failure(msg: String) -> (r: EvaluateResponse)
    ensures
        r@ == evaluate_failure(msg@),
{
    EvaluateResponse { error: msg, successful: false, response: None }
}

fn success(incidents: Vec<Incident>) -> (r: EvaluateResponse)
    ensures
        r@ == evaluate_success(incident_views(incidents@)),
{
    let matched = incidents.len() > 0;
    let r = EvaluateResponse { error: String::new(), successful: true, response: Some(EvaluateResult { matched, incidents }) };
    assert(r@.error =~= Seq::<char>::empty());
    r
}

// ---------------------------------------------------------------------------
// Dependency conditions
// ---------------------------------------------------------------------------

/// A build file as read: its path, and its text when it could be read.
#[derive(Debug)]
pub struct SourceFile {
    pub path: String,
    pub content: Option<String>,
}

/// The `group:artifact` name a condition's `group.artifact` name stands
/// for.
pub open spec fn dependency_target(name: Seq<char>) -> Seq<char> {
    replace_char(name, '.', ':')
}

/// The incidents of the dependencies of one build file that the condition
/// matches: the same `group:artifact`, and a version within the bounds.
pub open spec fn matching_incidents(
    name: Seq<char>,
    lower: Option<Seq<char>>,
    upper: Option<Seq<char>>,
    path: Seq<char>,
    deps: Seq<(MavenDependencyView, u32)>,
) -> Seq<IncidentView>
    decreases deps.len(),
{
    if deps.len() == 0 {
        Seq::empty()
    } else {
        let prev = matching_incidents(name, lower, upper, path, deps.drop_last());
        let d = deps.last().0;
        if d.group_id + ":"@ + d.artifact_id == dependency_target(name) && d.version is Some && in_range(
            d.version->0,
            lower,
            upper,
        ) {
            prev.push(dependency_incident(path, deps.last().1, name, d.version->0))
        } else {
            prev
        }
    }
}

/// Whether a file's text, when read, is small enough for its line numbers
/// to be counted in a `u32`.
pub open spec fn countable(f: SourceFile) -> bool {
    f.content matches Some(c) ==> encode_utf8(c@).len() < 4294967295
}

/// The incidents of the POMs, in order; an unreadable POM gives none.
pub open spec fn pom_incidents(c: DependencyCondition, files: Seq<SourceFile>) -> Seq<IncidentView>
    decreases files.len(),
{
    if files.len() == 0 {
        Seq::empty()
    } else {
        let f = files.last();
        pom_incidents(c, files.drop_last()) + match f.content {
            Some(t) => matching_incidents(
                c.name@,
                opt_view(c.lowerbound),
                opt_view(c.upperbound),
                f.path@,
                pom_dependency_lines(t@, f.path@),
            ),
            None => Seq::empty(),
        }
    }
}

/// The incidents of the Gradle builds, in order; an unreadable build gives
/// none.
pub open spec fn gradle_incidents(c: DependencyCondition, files: Seq<SourceFile>) -> Seq<IncidentView>
    decreases files.len(),
{
    if files.len() == 0 {
        Seq::empty()
    } else {
        let f = files.last();
        gradle_incidents(c, files.drop_last()) + match f.content {
            Some(t) => if regex_compiles(gradle_dependency_pattern()) {
                matching_incidents(
                    c.name@,
                    opt_view(c.lowerbound),
                    opt_view(c.upperbound),
                    f.path@,
                    gradle_found(gradle_dependency_pattern(), lines(t@)),
                )
            } else {
                Seq::empty()
            },
            None => Seq::empty(),
        }
    }
}

/// Appends the incidents of one file's dependencies.
fn push_matching(
    cond: &DependencyCondition,
    target: &str,
    path: &str,
    deps: &Vec<(MavenDependency, u32)>,
    out: &mut Vec<Incident>,
)
    requires
        target@ == dependency_target(cond.name@),
    ensures
        incident_views(final(out)@) == incident_views(old(out)@) + matching_incidents(
            cond.name@,
            opt_view(cond.lowerbound),
            opt_view(cond.upperbound),
            path@,
            dependency_line_views(deps@),
        ),
{
    let ghost start = incident_views(out@);
    let ghost dv = dependency_line_views(deps@);
    let n = deps.len();
    assert(dv.take(0) =~= Seq::<(MavenDependencyView, u32)>::empty());
    assert(start + Seq::<IncidentView>::empty() =~= start);
    for k in 0..n
        invariant
            n == deps@.len(),
            dv == dependency_line_views(deps@),
            target@ == dependency_target(cond.name@),
            incident_views(out@) == start + matching_incidents(
                cond.name@,
                opt_view(cond.lowerbound),
                opt_view(cond.upperbound),
                path@,
                dv.take(k as int),
            ),
    {
        let (d, line) = (&deps[k].0, deps[k].1);
        assert(dv.take(k + 1).drop_last() =~= dv.take(k as int));
        assert(dv.take(k + 1).last() == (d@, line));
        let name = concat3(d.group_id.as_str(), ":", d.artifact_id.as_str());
        if str_eq(name.as_str(), target) {
            match &d.version {
                Some(v) => {
                    let lower = match &cond.lowerbound {
                        Some(l) => Some(l.as_str()),
                        None => None,
                    };
                    let upper = match &cond.upperbound {
                        Some(u) => Some(u.as_str()),
                        None => None,
                    };
                    if version_in_range(v.as_str(), lower, upper) {
                        let ghost before = out@;
                        let inc = create_dependency_incident(path, line, cond.name.as_str(), v.as_str());
                        out.push(inc);
                        assert(incident_views(out@) =~= incident_views(before).push(inc@));
                    }
                },
                None => {},
            }
        }
    }
    assert(dv.take(n as int) =~= dv);
}

/// Evaluates a dependency condition over the POMs and Gradle builds found
/// under a project: an incident for every declared dependency with the
/// condition's `group:artifact` name and a version within its bounds.
pub fn evaluate_dependency_condition(
    dependency_cond: &DependencyCondition,
    pom_files: &Vec<SourceFile>,
    gradle_files: &Vec<SourceFile>,
) -> (r: EvaluateResponse)
    requires
        forall|i: int| 0 <= i < pom_files@.len() ==> countable(#[trigger] pom_files@[i]),
    ensures
        r@ == evaluate_success(
            pom_incidents(*dependency_cond, pom_files@) + gradle_incidents(*dependency_cond, gradle_files@),
        ),
{
    let target = replace_char_str(dependency_cond.name.as_str(), '.', ':');
    let mut incidents: Vec<Incident> = Vec::new();
    let n = pom_files.len();
    assert(pom_files@.take(0) =~= Seq::<SourceFile>::empty());
    for k in 0..n
        invariant
            n == pom_files@.len(),
            target@ == dependency_target(dependency_cond.name@),
            forall|i: int| 0 <= i < pom_files@.len() ==> countable(#[trigger] pom_files@[i]),
            incident_views(incidents@) == pom_incidents(*dependency_cond, pom_files@.take(k as int)),
    {
        let f = &pom_files[k];
        assert(pom_files@.take(k + 1).drop_last() =~= pom_files@.take(k as int));
        assert(countable(pom_files@[k as int]));
        match &f.content {
            Some(t) => {
                let deps = maven_dependencies_with_lines(f.path.as_str(), t.as_str());
                push_matching(dependency_cond, target.as_str(), f.path.as_str(), &deps, &mut incidents);
            },
            None => {
                assert(incident_views(incidents@) =~= incident_views(incidents@) + Seq::<IncidentView>::empty());
            },
        }
    }
    assert(pom_files@.take(n as int) =~= pom_files@);
    let ghost from_poms = incident_views(incidents@);
    let m = gradle_files.len();
    assert(gradle_files@.take(0) =~= Seq::<SourceFile>::empty());
    assert(from_poms + Seq::<IncidentView>::empty() =~= from_poms);
    for k in 0..m
        invariant
            m == gradle_files@.len(),
            target@ == dependency_target(dependency_cond.name@),
            incident_views(incidents@) == from_poms + gradle_incidents(*dependency_cond, gradle_files@.take(k as int)),
    {
        let f = &gradle_files[k];
        assert(gradle_files@.take(k + 1).drop_last() =~= gradle_files@.take(k as int));
        let ghost before = incident_views(incidents@);
        match &f.content {
            Some(t) => match gradle_dependencies_with_lines(t.as_str()) {
                Some(deps) => {
                    push_matching(dependency_cond, target.as_str(), f.path.as_str(), &deps, &mut incidents);
                },
                None => {},
            },
            None => {},
        }
        assert(incident_views(incidents@) =~= from_poms + gradle_incidents(*dependency_cond, gradle_files@.take(k + 1)));
    }
    assert(gradle_files@.take(m as int) =~= gradle_files@);
    success(incidents)
}

// ---------------------------------------------------------------------------
// Provider state
// ---------------------------------------------------------------------------

/// The configuration an instance is initialised with: the project's
/// location.
#[derive(Debug)]
pub struct ProviderConfig {
    pub location: String,
}

/// The state of one provider instance (one `init` request).
#[derive(Debug)]
pub struct ProviderInstanceState {
    config: ProviderConfig,
    source_path: String,
    initialized: bool,
}

/// The mathematical value of a [`ProviderInstanceState`].
pub struct InstanceView {
    pub location: Seq<char>,
    pub source_path: Seq<char>,
    pub initialized: bool,
}

impl View for ProviderInstanceState {
    type V = InstanceView;

    closed spec fn view(&self) -> InstanceView {
        InstanceView {
            location: self.config.location@,
            source_path: self.source_path@,
            initialized: self.initialized,
        }
    }
}

/// The state shared by all instances: the instances by id, the next id to
/// hand out, the type resolver over every analysed file, and the files
/// found so far.
#[derive(Debug)]
pub struct JavaProviderState {
    instances: Vec<(i64, ProviderInstanceState)>,
    next_id: i64,
    type_resolver: Option<TypeResolver>,
    java_files: Vec<String>,
}

/// The mathematical value of a [`JavaProviderState`].
pub struct ProviderStateView {
    pub instances: Seq<(i64, InstanceView)>,
    pub next_id: i64,
    pub resolver: Option<TypeResolverView>,
    pub java_files: Seq<Seq<char>>,
}

impl View for JavaProviderState {
    type V = ProviderStateView;

    closed spec fn view(&self) -> ProviderStateView {
        ProviderStateView {
            instances: self.instances@.map_values(|p: (i64, ProviderInstanceState)| (p.0, p.1@)),
            next_id: self.next_id,
            resolver: match self.type_resolver {
                Some(r) => Some(r@),
                None => None,
            },
            java_files: self.java_files@.map_values(|p: String| p@),
        }
    }
}

/// The instance with the given id.
pub open spec fn instance_of(insts: Seq<(i64, InstanceView)>, id: i64) -> Option<InstanceView> {
    if exists|i: int| 0 <= i < insts.len() && insts[i].0 == id {
        Some(insts[choose|i: int| 0 <= i < insts.len() && insts[i].0 == id].1)
    } else {
        None
    }
}

/// Ids are handed out in increasing order from 1: every instance's id is
/// below the next one, and earlier instances have lower ids.
pub open spec fn fresh_ids(v: ProviderStateView) -> bool {
    &&& v.next_id >= 1
    &&& forall|i: int| 0 <= i < v.instances.len() ==> #[trigger] v.instances[i].0 < v.next_id
    &&& forall|i: int, j: int|
        0 <= i < j < v.instances.len() ==> #[trigger] v.instances[i].0 < #[trigger] v.instances[j].0
}

/// An instance recorded under the next id is found by that id, and every
/// other id finds what it found before.
pub proof fn law_new_instance_found(v: ProviderStateView, iv: InstanceView, other: i64)
    requires
        fresh_ids(v),
        other != v.next_id,
    ensures
        instance_of(v.instances.push((v.next_id, iv)), v.next_id) == Some(iv),
        instance_of(v.instances.push((v.next_id, iv)), other) == instance_of(v.instances, other),
{
    let w = v.instances.push((v.next_id, iv));
    let n = v.instances.len() as int;
    assert(w[n].0 == v.next_id);
    let k = choose|i: int| 0 <= i < w.len() && w[i].0 == v.next_id;
    if k < n {
        assert(w[k] == v.instances[k]);
    }
    if exists|i: int| 0 <= i < v.instances.len() && v.instances[i].0 == other {
        let a = choose|i: int| 0 <= i < v.instances.len() && v.instances[i].0 == other;
        assert(w[a] == v.instances[a]);
        let b = choose|i: int| 0 <= i < w.len() && w[i].0 == other;
        if b < n {
            assert(w[b] == v.instances[b]);
            if a < b {
                assert(v.instances[a].0 < v.instances[b].0);
            } else if b < a {
                assert(v.instances[b].0 < v.instances[a].0);
            }
        }
    } else {
        assert forall|i: int| 0 <= i < w.len() implies w[i].0 != other by {
            if i < n {
                assert(w[i] == v.instances[i]);
            }
        }
    }
}

/// A resolver with nothing in it.
pub open spec fn empty_resolver() -> TypeResolverView {
    TypeResolverView {
        file_infos: Seq::empty(),
        global_type_index: Seq::empty(),
        inheritance_map: Seq::empty(),
        interface_map: Seq::empty(),
    }
}

/// The resolver after its indexes are rebuilt: the global index, then the
/// superclass and interface maps, then the annotations' qualified names.
pub open spec fn reindexed(r: TypeResolverView) -> TypeResolverView {
    let index = index_files(r.file_infos);
    let maps = hierarchy_files(index, r.file_infos);
    TypeResolverView {
        file_infos: r.file_infos.map_values(
            |p: (Seq<char>, FileInfoView)| (p.0, resolve_file_annotations(index, p.1)),
        ),
        global_type_index: index,
        inheritance_map: maps.0,
        interface_map: maps.1,
    }
}

/// The paths and texts of files as read.
pub open spec fn source_views(files: Seq<SourceFile>) -> Seq<(Seq<char>, Option<Seq<char>>)> {
    files.map_values(|f: SourceFile| (f.path@, opt_view(f.content)))
}

/// The paths of files as read.
pub open spec fn source_paths(files: Seq<SourceFile>) -> Seq<Seq<char>> {
    files.map_values(|f: SourceFile| f.path@)
}

/// The resolver after analysing one file: the symbols of its Java syntax
/// tree recorded under its path, or no change where it could not be read.
pub open spec fn analysed_file(before: TypeResolverView, file: (Seq<char>, Option<Seq<char>>)) -> TypeResolverView {
    match file.1 {
        Some(text) => TypeResolverView {
            file_infos: insert_entry(before.file_infos, file.0, file_info_of(java_tree(text), file.0)),
            ..before
        },
        None => before,
    }
}

/// The resolver after analysing the files in order.
pub open spec fn analysed(before: TypeResolverView, files: Seq<(Seq<char>, Option<Seq<char>>)>) -> TypeResolverView
    decreases files.len(),
{
    if files.len() == 0 {
        before
    } else {
        analysed_file(analysed(before, files.drop_last()), files.last())
    }
}

/// Analyses one file, unless it could not be read.
fn analyze_one(r: &mut TypeResolver, f: &SourceFile)
    ensures
        final(r)@ == analysed_file(old(r)@, (f.path@, opt_view(f.content))),
{
    match &f.content {
        Some(t) => {
            let _ = r.analyze_file(f.path.as_str(), t.as_str());
        },
        None => {},
    }
}

/// Analyses the files in order; one that cannot be read is passed over.
fn analyze_all(r: &mut TypeResolver, files: &Vec<SourceFile>)
    ensures
        final(r)@ == analysed(old(r)@, source_views(files@)),
{
    let ghost start = r@;
    let ghost sv = source_views(files@);
    let n = files.len();
    assert(sv.take(0) =~= Seq::<(Seq<char>, Option<Seq<char>>)>::empty());
    for k in 0..n
        invariant
            n == files@.len(),
            sv == source_views(files@),
            r@ == analysed(start, sv.take(k as int)),
    {
        analyze_one(r, &files[k]);
        proof {
            let fs = sv.take(k + 1);
            assert(fs.drop_last() =~= sv.take(k as int));
            assert(fs.last() == (files@[k as int].path@, opt_view(files@[k as int].content)));
        }
    }
    assert(sv.take(n as int) =~= sv);
}

/// Rebuilds a resolver's indexes.
fn reindex(r: &mut TypeResolver)
    ensures
        final(r)@ == reindexed(old(r)@),
{
    r.build_global_index();
    r.build_inheritance_maps();
    r.resolve_annotation_fqdns();
}

/// The answer to an `init` request.
#[derive(Debug)]
pub struct InitResponse {
    pub error: String,
    pub successful: bool,
    pub id: i64,
    pub builtin_config: Option<ProviderConfig>,
}

/// The mathematical value of an [`InitResponse`].
pub struct InitResponseView {
    pub error: Seq<char>,
    pub successful: bool,
    pub id: i64,
    pub builtin_location: Option<Seq<char>>,
}

impl View for InitResponse {
    type V = InitResponseView;

    open spec fn view(&self) -> InitResponseView {
        InitResponseView {
            error: self.error@,
            successful: self.successful,
            id: self.id,
            builtin_location: match self.builtin_config {
                Some(c) => Some(c.location@),
                None => None,
            },
        }
    }
}

/// The resolver analysis continues from: the one held, or an empty one.
pub open spec fn start_resolver(o: Option<TypeResolverView>) -> TypeResolverView {
    match o {
        Some(r) => r,
        None => empty_resolver(),
    }
}

/// What to do next with an evaluation request.
#[derive(Debug)]
pub enum EvaluateStep {
    /// Answer at once.
    Reply(EvaluateResponse),
    /// Evaluate the dependency condition over the build files under the
    /// instance's project path.
    Dependency(DependencyCondition, String),
    /// Run the query over the analysed files.
    Query(ReferencedQuery),
}

/// Whether a step answers at once with a failure carrying `msg`.
pub open spec fn replies_failure(r: EvaluateStep, msg: Seq<char>) -> bool {
    r matches EvaluateStep::Reply(resp) && resp@ == evaluate_failure(msg)
}

/// Whether a query is the one a referenced condition asks for.
pub open spec fn query_for(q: ReferencedQuery, rc: ReferencedCondition, t: LocationType) -> bool {
    &&& compiled_from(q.pattern, rc.pattern@, default_options())
    &&& q.location == t
    &&& q.filters is None
    &&& match rc.annotated {
        None => q.annotated is None,
        Some(ac) => q.annotated matches Some(f) && filter_pattern(f) == opt_view(ac.pattern)
            && filter_elements(f) == elements_inserted(ac.elements@),
    }
}

/// The step taken for a referenced condition: a failure for an unknown
/// location name or a text that looks like a regular expression and does
/// not compile, else its query.
pub open spec fn referenced_step(rc: ReferencedCondition, r: EvaluateStep) -> bool {
    match location_named(lowercase(rc.location@)) {
        None => replies_failure(r, "Invalid location type: "@ + ("Unknown location type: "@ + rc.location@)),
        Some(t) => if looks_like_regex(rc.pattern@) && !regex_compiles(regex_body(rc.pattern@)) {
            replies_failure(r, "Invalid pattern: "@ + ("Invalid regex pattern: "@ + rc.pattern@))
        } else {
            r matches EvaluateStep::Query(q) && query_for(q, rc, t)
        },
    }
}

/// The step taken for an evaluation request on an instance: a failure for
/// an unknown or uninitialised instance or an unreadable condition; the
/// dependency condition when there is one; else the referenced condition's
/// step, or a failure when there is neither.
pub open spec fn evaluate_step(st: ProviderStateView, id: i64, condition: Result<ConditionWrapper, String>, r: EvaluateStep) -> bool {
    match instance_of(st.instances, id) {
        None => if st.instances.len() == 0 {
            replies_failure(r, "Provider not initialized"@)
        } else {
            replies_failure(r, "Unknown instance ID: "@ + signed_decimal(id as int))
        },
        Some(inst) => if !inst.initialized {
            replies_failure(r, "Provider not initialized"@)
        } else {
            match condition {
                Err(e) => replies_failure(r, "Failed to parse condition: "@ + e@),
                Ok(c) => match c.dependency {
                    Some(d) => r matches EvaluateStep::Dependency(d2, p) && d2 == d && p@ == inst.source_path,
                    None => match c.referenced {
                        None => replies_failure(r, "No referenced or dependency condition found"@),
                        Some(rc) => referenced_step(rc, r),
                    },
                },
            }
        },
    }
}

/// The last piece of a split path that is neither empty nor `.`.
pub open spec fn last_named_piece(ps: Seq<Seq<char>>) -> Option<Seq<char>>
    decreases ps.len(),
{
    if ps.len() == 0 {
        None
    } else if ps.last().len() > 0 && ps.last() != "."@ {
        Some(ps.last())
    } else {
        last_named_piece(ps.drop_last())
    }
}

/// The file name of a path as `Path::file_name` gives it: the last
/// component, unless that is `..` or there is none.
pub open spec fn file_name(p: Seq<char>) -> Option<Seq<char>> {
    match last_named_piece(split_char(p, '/')) {
        Some(n) => if n == ".."@ {
            None
        } else {
            Some(n)
        },
        None => None,
    }
}

/// Whether a path's extension, as `Path::extension` gives it, is `java`:
/// its file name has a `.` after the first character, and what follows the
/// last `.` is `java`.
pub open spec fn is_java_path(p: Seq<char>) -> bool {
    match file_name(p) {
        Some(n) => match last_index_of(n, '.') {
            Some(k) => k > 0 && n.skip(k + 1) == "java"@,
            None => false,
        },
        None => false,
    }
}

/// Whether a path's extension is `java`.
pub fn has_java_extension(path: &str) -> (b: bool)
    ensures
        b == is_java_path(path@),
{
    let pieces = split_on_char(path, '/');
    let ghost ps = pieces@.map_values(|p: String| p@);
    let mut j = pieces.len();
    assert(ps.take(j as int) =~= ps);
    let mut found: Option<usize> = None;
    while j > 0
        invariant_except_break
            found is None,
        invariant
            j <= pieces@.len(),
            ps == pieces@.map_values(|p: String| p@),
            ps == split_char(path@, '/'),
            found is None ==> last_named_piece(ps) == last_named_piece(ps.take(j as int)),
            found matches Some(i) ==> i < ps.len() && last_named_piece(ps) == Some(ps[i as int]),
        ensures
            found is None ==> last_named_piece(ps) is None,
        decreases j,
    {
        let p = pieces[j - 1].as_str();
        assert(ps.take(j as int).last() == p@);
        assert(ps.take(j as int).drop_last() =~= ps.take(j - 1));
        if !is_empty_str(p) && !str_eq(p, ".") {
            found = Some(j - 1);
            break;
        }
        j = j - 1;
    }
    match found {
        None => false,
        Some(i) => {
            let name = pieces[i].as_str();
            if str_eq(name, "..") {
                return false;
            }
            let cs = crate::text::chars_of(name);
            match last_index_of_char(cs.as_slice(), '.') {
                None => {
                    assert(last_index_of(name@, '.') is None);
                    false
                },
                Some(k) => {
                    assert(last_index_of(name@, '.') == Some(k as int)) by {
                        let w = choose|w: int| 0 <= w < name@.len() && name@[w] == '.' && forall|x: int| w < x < name@.len() ==> name@[x] != '.';
                        if w < k {
                            assert(name@[k as int] == '.');
                        } else if w > k {
                            assert(name@[w] == '.');
                        }
                    }
                    let n = cs.len();
                    let tail = crate::text::string_of_range(cs.as_slice(), k + 1, n);
                    assert(tail@ =~= name@.skip(k + 1));
                    k > 0 && str_eq(tail.as_str(), "java")
                },
            }
        },
    }
}

/// The paths of the changed files to analyse again: the `file://` URIs
/// whose path has the `java` extension, in order.
pub open spec fn changed_java_paths(uris: Seq<Seq<char>>) -> Seq<Seq<char>>
    decreases uris.len(),
{
    if uris.len() == 0 {
        Seq::empty()
    } else {
        let prev = changed_java_paths(uris.drop_last());
        let u = uris.last();
        if starts_with(u, "file://"@) && is_java_path(u.skip(7)) {
            prev.push(u.skip(7))
        } else {
            prev
        }
    }
}

/// The path of a `file://` URI whose path has the `java` extension.
fn java_path_of_uri(u: &str) -> (r: Option<String>)
    ensures
        match r {
            Some(p) => starts_with(u@, "file://"@) && is_java_path(u@.skip(7)) && p@ == u@.skip(7),
            None => !(starts_with(u@, "file://"@) && is_java_path(u@.skip(7))),
        },
{
    if starts_with_str(u, "file://") {
        let cs = crate::text::chars_of(u);
        proof {
            reveal_strlit("file://");
        }
        let path = crate::text::string_of_range(cs.as_slice(), 7, cs.len());
        assert(path@ =~= u@.skip(7));
        if has_java_extension(path.as_str()) {
            return Some(path);
        }
    }
    None
}

/// What to do next with a notification of changed files.
#[derive(Debug)]
pub enum NotifyStep {
    /// Answer at once with this error text (empty when there is nothing to
    /// do).
    Reply(String),
    /// Read these files and analyse them again.
    Reanalyze(Vec<String>),
}

/// A dependency as reported for a build file.
#[derive(Debug)]
pub struct DependencyRecord {
    pub name: String,
    pub version: String,
    pub classifier: String,
    pub dep_type: String,
    pub resolved_identifier: String,
    pub file_uri_prefix: String,
    pub indirect: bool,
    pub labels: Vec<String>,
}

/// The mathematical value of a [`DependencyRecord`].
pub struct DependencyRecordView {
    pub name: Seq<char>,
    pub version: Seq<char>,
    pub classifier: Seq<char>,
    pub dep_type: Seq<char>,
    pub resolved_identifier: Seq<char>,
    pub file_uri_prefix: Seq<char>,
    pub indirect: bool,
    pub labels: Seq<Seq<char>>,
}

impl View for DependencyRecord {
    type V = DependencyRecordView;

    open spec fn view(&self) -> DependencyRecordView {
        DependencyRecordView {
            name: self.name@,
            version: self.version@,
            classifier: self.classifier@,
            dep_type: self.dep_type@,
            resolved_identifier: self.resolved_identifier@,
            file_uri_prefix: self.file_uri_prefix@,
            indirect: self.indirect,
            labels: self.labels@.map_values(|l: String| l@),
        }
    }
}

/// The dependencies of one build file.
#[derive(Debug)]
pub struct FileDependencies {
    pub file_uri: String,
    pub deps: Vec<DependencyRecord>,
}

/// The mathematical value of a [`FileDependencies`].
pub struct FileDependenciesView {
    pub file_uri: Seq<char>,
    pub deps: Seq<DependencyRecordView>,
}

impl View for FileDependencies {
    type V = FileDependenciesView;

    open spec fn view(&self) -> FileDependenciesView {
        FileDependenciesView { file_uri: self.file_uri@, deps: self.deps@.map_values(|d: DependencyRecord| d@) }
    }
}

/// The views of a list of build files' dependencies.
pub open spec fn file_dependency_views(v: Seq<FileDependencies>) -> Seq<FileDependenciesView> {
    v.map_values(|f: FileDependencies| f@)
}

/// The text of an optional string, empty when absent.
pub open spec fn or_empty(o: Option<Seq<char>>) -> Seq<char> {
    match o {
        Some(s) => s,
        None => Seq::empty(),
    }
}

/// The record of a Maven dependency of a POM: named by its artifact, of
/// type `jar` unless it says otherwise, direct.
pub open spec fn maven_record(pom: Seq<char>, d: MavenDependencyView) -> DependencyRecordView {
    DependencyRecordView {
        name: d.artifact_id,
        version: or_empty(d.version),
        classifier: or_empty(d.classifier),
        dep_type: match d.type_ {
            Some(t) => t,
            None => "jar"@,
        },
        resolved_identifier: maven_identifier(d),
        file_uri_prefix: "file://"@ + pom,
        indirect: false,
        labels: Seq::empty(),
    }
}

/// The record of a Gradle dependency: named `group.name`, of type `jar`,
/// labelled with its configuration.
pub open spec fn gradle_record(build_file: Seq<char>, d: GradleDependencyView) -> DependencyRecordView {
    DependencyRecordView {
        name: d.group + "."@ + d.name,
        version: or_empty(d.version),
        classifier: Seq::empty(),
        dep_type: "jar"@,
        resolved_identifier: gradle_identifier(d),
        file_uri_prefix: "file://"@ + build_file,
        indirect: false,
        labels: match d.configuration {
            Some(c) => seq![c],
            None => Seq::empty(),
        },
    }
}

/// The records of the POMs whose dependencies were resolved, in order.
pub open spec fn maven_file_records(results: Seq<(Seq<char>, Option<Seq<MavenDependencyView>>)>) -> Seq<FileDependenciesView>
    decreases results.len(),
{
    if results.len() == 0 {
        Seq::empty()
    } else {
        let prev = maven_file_records(results.drop_last());
        let (pom, deps) = results.last();
        match deps {
            Some(ds) => prev.push(
                FileDependenciesView {
                    file_uri: "file://"@ + pom,
                    deps: ds.map_values(|d: MavenDependencyView| maven_record(pom, d)),
                },
            ),
            None => prev,
        }
    }
}

/// The records of the Gradle builds whose dependencies were resolved, in
/// order.
pub open spec fn gradle_file_records(results: Seq<(Seq<char>, Option<Seq<GradleDependencyView>>)>) -> Seq<FileDependenciesView>
    decreases results.len(),
{
    if results.len() == 0 {
        Seq::empty()
    } else {
        let prev = gradle_file_records(results.drop_last());
        let (file, deps) = results.last();
        match deps {
            Some(ds) => prev.push(
                FileDependenciesView {
                    file_uri: "file://"@ + file,
                    deps: ds.map_values(|d: GradleDependencyView| gradle_record(file, d)),
                },
            ),
            None => prev,
        }
    }
}

/// The view of resolution results for POMs.
pub open spec fn maven_results_view(v: Seq<(String, Option<Vec<MavenDependency>>)>) -> Seq<(Seq<char>, Option<Seq<MavenDependencyView>>)> {
    v.map_values(
        |p: (String, Option<Vec<MavenDependency>>)|
            (
                p.0@,
                match p.1 {
                    Some(ds) => Some(maven_views(ds@)),
                    None => None,
                },
            ),
    )
}

/// The view of resolution results for Gradle builds.
pub open spec fn gradle_results_view(v: Seq<(String, Option<Vec<GradleDependency>>)>) -> Seq<(Seq<char>, Option<Seq<GradleDependencyView>>)> {
    v.map_values(
        |p: (String, Option<Vec<GradleDependency>>)|
            (
                p.0@,
                match p.1 {
                    Some(ds) => Some(gradle_views(ds@)),
                    None => None,
                },
            ),
    )
}

/// The answer to a dependencies request.
#[derive(Debug)]
pub struct DependencyResponse {
    pub successful: bool,
    pub error: String,
    pub file_deps: Vec<FileDependencies>,
}

/// The answer to a request for the dependency graph, which is not built:
/// always successful and empty.
#[derive(Debug)]
pub struct DependencyDagResponse {
    pub successful: bool,
    pub error: String,
    pub file_dag_deps: Vec<FileDependencies>,
}

/// A report of preparation progress.
#[derive(Debug)]
pub struct ProgressEvent {
    /// The kind of event; preparation is kind 0.
    pub event_type: i32,
    pub provider_name: String,
    pub files_processed: i32,
    pub total_files: i32,
}

/// What to do next with a dependencies request.
#[derive(Debug)]
pub enum DependencyStep {
    /// Answer at once.
    Reply(DependencyResponse),
    /// Resolve the dependencies of the project at this path.
    Resolve(String),
}

impl JavaProviderState {
    #[verifier::type_invariant]
    spec fn ids_below_next(self) -> bool {
        &&& self.next_id >= 1
        &&& forall|i: int| 0 <= i < self.instances@.len() ==> #[trigger] self.instances@[i].0 < self.next_id
        &&& forall|i: int, j: int|
            0 <= i < j < self.instances@.len() ==> #[trigger] self.instances@[i].0 < #[trigger] self.instances@[j].0
    }

    proof fn lemma_invariant_fresh(s: JavaProviderState)
        requires
            s.ids_below_next(),
        ensures
            fresh_ids(s@),
    {
        assert forall|i: int| 0 <= i < s@.instances.len() implies #[trigger] s@.instances[i].0 < s@.next_id by {
            assert(s@.instances[i].0 == s.instances@[i].0);
        }
        assert forall|i: int, j: int|
            0 <= i < j < s@.instances.len() implies #[trigger] s@.instances[i].0 < #[trigger] s@.instances[j].0 by {
            assert(s@.instances[i].0 == s.instances@[i].0);
            assert(s@.instances[j].0 == s.instances@[j].0);
        }
    }

    /// A state with no instances, no resolver and no files; ids start at 1.
    pub fn new() -> (s: Self)
        ensures
            s@.instances.len() == 0,
            s@.next_id == 1,
            s@.resolver is None,
            s@.java_files.len() == 0,
            fresh_ids(s@),
    {
        let s = JavaProviderState { instances: Vec::new(), next_id: 1, type_resolver: None, java_files: Vec::new() };
        proof {
            use_type_invariant(&s);
            Self::lemma_invariant_fresh(s);
        }
        s
    }

    /// The id the next instance gets.
    pub fn next_instance_id(&self) -> (r: i64)
        ensures
            r == self@.next_id,
    {
        self.next_id
    }

    /// Whether a resolver is held.
    pub fn has_type_resolver(&self) -> (b: bool)
        ensures
            b == self@.resolver is Some,
    {
        self.type_resolver.is_some()
    }

    /// The instance with an id.
    fn find_instance(&self, id: i64) -> (r: Option<&ProviderInstanceState>)
        ensures
            match r {
                Some(inst) => instance_of(self@.instances, id) == Some(inst@),
                None => instance_of(self@.instances, id) is None,
            },
    {
        proof {
            use_type_invariant(self);
        }
        let ghost v = self@.instances;
        let n = self.instances.len();
        for k in 0..n
            invariant
                n == self.instances@.len(),
                v == self@.instances,
                v.len() == n,
                forall|i: int, j: int| 0 <= i < j < n ==> #[trigger] v[i].0 < #[trigger] v[j].0,
                forall|i: int| 0 <= i < k ==> #[trigger] v[i].0 != id,
        {
            if self.instances[k].0 == id {
                proof {
                    assert(v[k as int].0 == id);
                    let w = choose|i: int| 0 <= i < v.len() && v[i].0 == id;
                    if w < k {
                        assert(v[w].0 != id);
                    } else if w > k {
                        assert(v[k as int].0 < v[w].0);
                    }
                }
                return Some(&self.instances[k].1);
            }
        }
        None
    }

    /// Initialises an instance for a project. When the location does not
    /// exist, nothing changes and the answer says so. Otherwise the instance
    /// gets the next id; the files found under the location are analysed
    /// into the resolver held (or a new one), its indexes rebuilt over all
    /// files so far, and the instance recorded. When the files could not be
    /// listed, the id is used up, the resolver is dropped and the error is
    /// returned.
    pub fn init(&mut self, config: ProviderConfig, path_exists: bool, listing: Result<Vec<SourceFile>, String>) -> (r:
        Result<InitResponse, String>)
        requires
            old(self)@.next_id < i64::MAX,
        ensures
            fresh_ids(final(self)@),
            !path_exists ==> (r matches Ok(resp) && resp@ == (InitResponseView {
                error: "Source path does not exist: "@ + config.location@,
                successful: false,
                id: 0,
                builtin_location: None,
            }) && final(self)@ == old(self)@),
            path_exists ==> match listing {
                Err(e) => (r matches Err(m) && m@ == "Failed to find Java files: "@ + e@ && final(self)@ == (
                ProviderStateView { next_id: (old(self)@.next_id + 1) as i64, resolver: None, ..old(self)@ })),
                Ok(files) => {
                    &&& r matches Ok(resp) && resp@ == (InitResponseView {
                        error: Seq::empty(),
                        successful: true,
                        id: old(self)@.next_id,
                        builtin_location: Some(config.location@),
                    })
                    &&& final(self)@.next_id == old(self)@.next_id + 1
                    &&& final(self)@.instances == old(self)@.instances.push(
                        (
                            old(self)@.next_id,
                            InstanceView { location: config.location@, source_path: config.location@, initialized: true },
                        ),
                    )
                    &&& final(self)@.java_files == old(self)@.java_files + source_paths(files@)
                    &&& final(self)@.resolver == Some(
                        reindexed(analysed(start_resolver(old(self)@.resolver), source_views(files@))),
                    )
                },
            },
    {
        proof {
            use_type_invariant(&*self);
            Self::lemma_invariant_fresh(*self);
        }
        if !path_exists {
            return Ok(
                InitResponse {
                    error: concat2("Source path does not exist: ", config.location.as_str()),
                    successful: false,
                    id: 0,
                    builtin_config: None,
                },
            );
        }
        proof {
            use_type_invariant(&*self);
        }
        let ghost old_view = self@;
        let instance_id = self.next_id;
        self.next_id = self.next_id + 1;
        let mut taken: Option<TypeResolver> = None;
        std::mem::swap(&mut taken, &mut self.type_resolver);
        let mut type_resolver = match taken {
            Some(r) => r,
            None => {
                let r = TypeResolver::new();
                assert(r@.file_infos =~= empty_resolver().file_infos);
                assert(r@.global_type_index =~= empty_resolver().global_type_index);
                assert(r@.inheritance_map =~= empty_resolver().inheritance_map);
                assert(r@.interface_map =~= empty_resolver().interface_map);
                r
            },
        };
        assert(type_resolver@ == start_resolver(old_view.resolver));
        let files = match listing {
            Ok(f) => f,
            Err(e) => {
                assert(self@ =~= ProviderStateView { next_id: (old_view.next_id + 1) as i64, resolver: None, ..old_view });
                proof {
                    use_type_invariant(&*self);
                    Self::lemma_invariant_fresh(*self);
                }
                return Err(concat2("Failed to find Java files: ", e.as_str()));
            },
        };
        let ghost start = type_resolver@;
        analyze_all(&mut type_resolver, &files);
        let ghost analysed = type_resolver@;
        let n = files.len();
        let mut java_files: Vec<String> = Vec::new();
        std::mem::swap(&mut java_files, &mut self.java_files);
        let ghost jf = java_files@.map_values(|p: String| p@);
        assert(jf == old_view.java_files);
        for k in 0..n
            invariant
                n == files@.len(),
                java_files@.map_values(|p: String| p@) == jf + source_paths(files@).take(k as int),
        {
            let ghost before = java_files@;
            let p = own(files[k].path.as_str());
            java_files.push(p);
            assert(java_files@.map_values(|p: String| p@) =~= before.map_values(|p: String| p@).push(p@));
            assert(source_paths(files@).take(k + 1) =~= source_paths(files@).take(k as int).push(files@[k as int].path@));
            assert(java_files@.map_values(|p: String| p@) =~= jf + source_paths(files@).take(k + 1));
        }
        assert(source_paths(files@).take(n as int) =~= source_paths(files@));
        self.java_files = java_files;
        reindex(&mut type_resolver);
        self.type_resolver = Some(type_resolver);
        let source_path = own(config.location.as_str());
        let location = own(config.location.as_str());
        let inst = ProviderInstanceState { config: ProviderConfig { location }, source_path, initialized: true };
        let ghost iv = inst@;
        let mut instances: Vec<(i64, ProviderInstanceState)> = Vec::new();
        std::mem::swap(&mut instances, &mut self.instances);
        instances.push((instance_id, inst));
        self.instances = instances;
        assert(self@.instances =~= old_view.instances.push((old_view.next_id, iv)));
        proof {
            use_type_invariant(&*self);
            Self::lemma_invariant_fresh(*self);
        }
        let resp = InitResponse { error: String::new(), successful: true, id: instance_id, builtin_config: Some(config) };
        assert(resp@.error =~= Seq::<char>::empty());
        Ok(resp)
    }

    /// Decides what an evaluation request on an instance asks for; the
    /// condition is the request's YAML as read, or the reader's error. Before
    /// any initialisation the answer is that the provider is not initialized.
    pub fn evaluate(&self, id: i64, condition: Result<ConditionWrapper, String>) -> (r: EvaluateStep)
        ensures
            evaluate_step(self@, id, condition, r),
    {
        let inst = match self.find_instance(id) {
            Some(inst) => inst,
            None => {
                let msg = if self.instances.len() == 0 {
                    own("Provider not initialized")
                } else {
                    concat2("Unknown instance ID: ", i64_to_string(id).as_str())
                };
                return EvaluateStep::Reply(failure(msg));
            },
        };
        if !inst.initialized {
            return EvaluateStep::Reply(failure(own("Provider not initialized")));
        }
        let c = match condition {
            Ok(c) => c,
            Err(e) => {
                return EvaluateStep::Reply(failure(concat2("Failed to parse condition: ", e.as_str())));
            },
        };
        match c.dependency {
            Some(d) => {
                return EvaluateStep::Dependency(d, own(inst.source_path.as_str()));
            },
            None => {},
        }
        let referenced = match c.referenced {
            Some(rc) => rc,
            None => {
                return EvaluateStep::Reply(failure(own("No referenced or dependency condition found")));
            },
        };
        let location = match parse_location_type(referenced.location.as_str()) {
            Ok(t) => t,
            Err(e) => {
                return EvaluateStep::Reply(failure(concat2("Invalid location type: ", e.as_str())));
            },
        };
        let pattern = match Pattern::from_string(referenced.pattern.as_str()) {
            Ok(p) => p,
            Err(e) => {
                return EvaluateStep::Reply(failure(concat2("Invalid pattern: ", e.message().as_str())));
            },
        };
        let annotated = match &referenced.annotated {
            Some(ac) => Some(annotation_filter_of(ac)),
            None => None,
        };
        EvaluateStep::Query(ReferencedQuery { pattern, location, annotated, filters: None })
    }

    /// Runs a query over the analysed files: a successful answer with an
    /// incident for every result, in order.
    pub fn run_query(&mut self, query: &ReferencedQuery) -> (r: EvaluateResponse)
        requires
            old(self)@.resolver is Some,
        ensures
            final(self)@ == old(self)@,
            fresh_ids(final(self)@),
            r@ == evaluate_success(
                referenced_results(old(self)@.resolver->0, *query).map_values(|q: QueryResultView| query_incident(q)),
            ),
    {
        proof {
            use_type_invariant(&*self);
        }
        let ghost old_view = self@;
        let mut taken: Option<TypeResolver> = None;
        std::mem::swap(&mut taken, &mut self.type_resolver);
        match taken {
            Some(tr) => {
                let engine = QueryEngine::new(tr);
                let results = engine.query(query);
                self.type_resolver = Some(engine.into_resolver());
                assert(self@ =~= old_view);
                proof {
                    use_type_invariant(&*self);
                    Self::lemma_invariant_fresh(*self);
                }
                success(results_to_incidents(results))
            },
            None => failure(String::new()),
        }
    }

    /// Decides what a dependencies request on an instance asks for: a
    /// failure before any initialisation or for an unknown or uninitialised
    /// instance, else resolving the project at the instance's path.
    pub fn get_dependencies(&self, id: i64) -> (r: DependencyStep)
        ensures
            match instance_of(self@.instances, id) {
                None => r matches DependencyStep::Reply(resp) && !resp.successful && resp.file_deps@.len() == 0
                    && resp.error@ == if self@.instances.len() == 0 {
                    "Provider not initialized"@
                } else {
                    "Unknown instance ID: "@ + signed_decimal(id as int)
                },
                Some(inst) => if !inst.initialized {
                    r matches DependencyStep::Reply(resp) && !resp.successful && resp.file_deps@.len() == 0
                        && resp.error@ == "Provider not initialized"@
                } else {
                    r matches DependencyStep::Resolve(p) && p@ == inst.source_path
                },
            },
    {
        let inst = match self.find_instance(id) {
            Some(inst) => inst,
            None => {
                let msg = if self.instances.len() == 0 {
                    own("Provider not initialized")
                } else {
                    concat2("Unknown instance ID: ", i64_to_string(id).as_str())
                };
                return DependencyStep::Reply(DependencyResponse { successful: false, error: msg, file_deps: Vec::new() });
            },
        };
        if !inst.initialized {
            return DependencyStep::Reply(
                DependencyResponse { successful: false, error: own("Provider not initialized"), file_deps: Vec::new() },
            );
        }
        DependencyStep::Resolve(own(inst.source_path.as_str()))
    }

    /// The progress of preparation: every file found so far counts as
    /// processed (the count converted to `i32` as `as` does).
    pub fn prepare_progress(&self) -> (r: ProgressEvent)
        ensures
            r.event_type == 0,
            r.provider_name@ == "java"@,
            r.total_files == self@.java_files.len() as i32,
            r.files_processed == r.total_files,
    {
        let total = self.java_files.len() as i32;
        ProgressEvent { event_type: 0, provider_name: own("java"), files_processed: total, total_files: total }
    }

    /// Decides what a notification of changed files asks for: an error when
    /// no instance exists; nothing when no changed file is a Java file;
    /// else the Java files to analyse again.
    pub fn changed_java_files(&self, uris: &Vec<String>) -> (r: NotifyStep)
        ensures
            self@.instances.len() == 0 ==> (r matches NotifyStep::Reply(e) && e@ == "No provider instances initialized"@),
            self@.instances.len() > 0 ==> {
                let ps = changed_java_paths(uris@.map_values(|u: String| u@));
                &&& ps.len() == 0 ==> (r matches NotifyStep::Reply(e) && e@.len() == 0)
                &&& ps.len() > 0 ==> (r matches NotifyStep::Reanalyze(v) && v@.map_values(|p: String| p@) == ps)
            },
    {
        if self.instances.len() == 0 {
            return NotifyStep::Reply(own("No provider instances initialized"));
        }
        let ghost us = uris@.map_values(|u: String| u@);
        let mut changed: Vec<String> = Vec::new();
        let n = uris.len();
        assert(us.take(0) =~= Seq::<Seq<char>>::empty());
        for k in 0..n
            invariant
                n == uris@.len(),
                us == uris@.map_values(|u: String| u@),
                changed@.map_values(|p: String| p@) == changed_java_paths(us.take(k as int)),
        {
            let u = uris[k].as_str();
            assert(us.take(k + 1).drop_last() =~= us.take(k as int));
            assert(us.take(k + 1).last() == u@);
            match java_path_of_uri(u) {
                Some(path) => {
                    let ghost before = changed@;
                    changed.push(path);
                    assert(changed@.map_values(|p: String| p@) =~= before.map_values(|p: String| p@).push(u@.skip(7)));
                },
                None => {},
            }
        }
        assert(us.take(n as int) =~= us);
        if changed.len() == 0 {
            let e = String::new();
            assert(e@.len() == 0);
            NotifyStep::Reply(e)
        } else {
            NotifyStep::Reanalyze(changed)
        }
    }

    /// Analyses the changed files again, when a resolver is held, and
    /// rebuilds its indexes; the answer's error text is empty.
    pub fn reanalyze(&mut self, files: &Vec<SourceFile>) -> (r: String)
        ensures
            r@.len() == 0,
            fresh_ids(final(self)@),
            final(self)@.instances == old(self)@.instances,
            final(self)@.next_id == old(self)@.next_id,
            final(self)@.java_files == old(self)@.java_files,
            old(self)@.resolver is None ==> final(self)@.resolver is None,
            old(self)@.resolver matches Some(r0) ==> final(self)@.resolver == Some(
                reindexed(analysed(r0, source_views(files@))),
            ),
    {
        proof {
            use_type_invariant(&*self);
        }
        let mut taken: Option<TypeResolver> = None;
        std::mem::swap(&mut taken, &mut self.type_resolver);
        match taken {
            Some(mut tr) => {
                analyze_all(&mut tr, files);
                reindex(&mut tr);
                self.type_resolver = Some(tr);
            },
            None => {},
        }
        proof {
            use_type_invariant(&*self);
            Self::lemma_invariant_fresh(*self);
        }
        let e = String::new();
        assert(e@.len() == 0);
        e
    }
}

/// The records of one POM's dependencies.
fn maven_records(pom: &str, deps: &Vec<MavenDependency>) -> (r: Vec<DependencyRecord>)
    ensures
        r@.map_values(|d: DependencyRecord| d@) == maven_views(deps@).map_values(|d: MavenDependencyView| maven_record(pom@, d)),
{
    let mut out: Vec<DependencyRecord> = Vec::new();
    let n = deps.len();
    for k in 0..n
        invariant
            n == deps@.len(),
            out@.map_values(|d: DependencyRecord| d@) == maven_views(deps@).take(k as int).map_values(
                |d: MavenDependencyView| maven_record(pom@, d),
            ),
    {
        let md = &deps[k];
        let ghost before = out@;
        let rec = DependencyRecord {
            name: md.name(),
            version: match &md.version {
                Some(v) => own(v.as_str()),
                None => String::new(),
            },
            classifier: match &md.classifier {
                Some(c) => own(c.as_str()),
                None => String::new(),
            },
            dep_type: match &md.type_ {
                Some(t) => own(t.as_str()),
                None => own("jar"),
            },
            resolved_identifier: md.to_identifier(),
            file_uri_prefix: concat2("file://", pom),
            indirect: false,
            labels: Vec::new(),
        };
        assert(rec@ == maven_record(pom@, md@)) by {
            assert(rec@.labels =~= Seq::<Seq<char>>::empty());
            assert(rec@.version =~= or_empty(md@.version));
            assert(rec@.classifier =~= or_empty(md@.classifier));
        }
        out.push(rec);
        assert(out@.map_values(|d: DependencyRecord| d@) =~= before.map_values(|d: DependencyRecord| d@).push(rec@));
        assert(maven_views(deps@).take(k + 1) =~= maven_views(deps@).take(k as int).push(md@));
    }
    assert(maven_views(deps@).take(n as int) =~= maven_views(deps@));
    out
}

/// The records of one Gradle build's dependencies.
fn gradle_records(build_file: &str, deps: &Vec<GradleDependency>) -> (r: Vec<DependencyRecord>)
    ensures
        r@.map_values(|d: DependencyRecord| d@) == gradle_views(deps@).map_values(
            |d: GradleDependencyView| gradle_record(build_file@, d),
        ),
{
    let mut out: Vec<DependencyRecord> = Vec::new();
    let n = deps.len();
    for k in 0..n
        invariant
            n == deps@.len(),
            out@.map_values(|d: DependencyRecord| d@) == gradle_views(deps@).take(k as int).map_values(
                |d: GradleDependencyView| gradle_record(build_file@, d),
            ),
    {
        let gd = &deps[k];
        let ghost before = out@;
        let mut labels: Vec<String> = Vec::new();
        match &gd.configuration {
            Some(c) => labels.push(own(c.as_str())),
            None => {},
        }
        let rec = DependencyRecord {
            name: concat3(gd.group.as_str(), ".", gd.name.as_str()),
            version: match &gd.version {
                Some(v) => own(v.as_str()),
                None => String::new(),
            },
            classifier: String::new(),
            dep_type: own("jar"),
            resolved_identifier: gd.to_identifier(),
            file_uri_prefix: concat2("file://", build_file),
            indirect: false,
            labels,
        };
        assert(rec@ == gradle_record(build_file@, gd@)) by {
            assert(rec@.labels =~= match gd@.configuration {
                Some(c) => seq![c],
                None => Seq::<Seq<char>>::empty(),
            });
            assert(rec@.version =~= or_empty(gd@.version));
            assert(rec@.classifier =~= Seq::<char>::empty());
        }
        out.push(rec);
        assert(out@.map_values(|d: DependencyRecord| d@) =~= before.map_values(|d: DependencyRecord| d@).push(rec@));
        assert(gradle_views(deps@).take(k + 1) =~= gradle_views(deps@).take(k as int).push(gd@));
    }
    assert(gradle_views(deps@).take(n as int) =~= gradle_views(deps@));
    out
}

/// The dependencies of the POMs whose dependencies were resolved, in
/// order; a POM that could not be resolved is left out.
pub fn maven_file_dependencies(results: &Vec<(String, Option<Vec<MavenDependency>>)>) -> (r: Vec<FileDependencies>)
    ensures
        file_dependency_views(r@) == maven_file_records(maven_results_view(results@)),
{
    let ghost rv = maven_results_view(results@);
    let mut out: Vec<FileDependencies> = Vec::new();
    let n = results.len();
    assert(rv.take(0) =~= Seq::<(Seq<char>, Option<Seq<MavenDependencyView>>)>::empty());
    for k in 0..n
        invariant
            n == results@.len(),
            rv == maven_results_view(results@),
            file_dependency_views(out@) == maven_file_records(rv.take(k as int)),
    {
        assert(rv.take(k + 1).drop_last() =~= rv.take(k as int));
        let (pom, deps) = (&results[k].0, &results[k].1);
        match deps {
            Some(ds) => {
                let ghost before = out@;
                let f = FileDependencies { file_uri: concat2("file://", pom.as_str()), deps: maven_records(pom.as_str(), ds) };
                out.push(f);
                assert(file_dependency_views(out@) =~= file_dependency_views(before).push(f@));
            },
            None => {},
        }
    }
    assert(rv.take(n as int) =~= rv);
    out
}

/// The dependencies of the Gradle builds whose dependencies were resolved,
/// in order; a build that could not be resolved is left out.
pub fn gradle_file_dependencies(results: &Vec<(String, Option<Vec<GradleDependency>>)>) -> (r: Vec<FileDependencies>)
    ensures
        file_dependency_views(r@) == gradle_file_records(gradle_results_view(results@)),
{
    let ghost rv = gradle_results_view(results@);
    let mut out: Vec<FileDependencies> = Vec::new();
    let n = results.len();
    assert(rv.take(0) =~= Seq::<(Seq<char>, Option<Seq<GradleDependencyView>>)>::empty());
    for k in 0..n
        invariant
            n == results@.len(),
            rv == gradle_results_view(results@),
            file_dependency_views(out@) == gradle_file_records(rv.take(k as int)),
    {
        assert(rv.take(k + 1).drop_last() =~= rv.take(k as int));
        let (file, deps) = (&results[k].0, &results[k].1);
        match deps {
            Some(ds) => {
                let ghost before = out@;
                let f = FileDependencies { file_uri: concat2("file://", file.as_str()), deps: gradle_records(file.as_str(), ds) };
                out.push(f);
                assert(file_dependency_views(out@) =~= file_dependency_views(before).push(f@));
            },
            None => {},
        }
    }
    assert(rv.take(n as int) =~= rv);
    out
}

/// The resolver for a Gradle build: run with `./gradlew` when the project
/// has a wrapper script, else with `gradle`.
pub fn gradle_resolver_for(build_file: String, wrapper_exists: bool) -> (r: GradleResolver)
    ensures
        r.build_file_view() == build_file@,
        r.gradle_cmd_view() == if wrapper_exists {
            "./gradlew"@
        } else {
            "gradle"@
        },
{
    if wrapper_exists {
        GradleResolver::new(build_file).with_gradle_cmd(own("./gradlew"))
    } else {
        GradleResolver::new(build_file)
    }
}

/// The answer to a dependencies request once the build tool is known: for
/// Maven and Gradle, the resolved dependencies or the failure to resolve
/// them; with no build tool, success with nothing (the result is not
/// looked at).
pub fn dependency_response(tool: BuildTool, resolved: Result<Vec<FileDependencies>, String>) -> (r: DependencyResponse)
    ensures
        match tool {
            BuildTool::Unknown => r.successful && r.error@.len() == 0 && r.file_deps@.len() == 0,
            _ => match resolved {
                Ok(fds) => r.successful && r.error@.len() == 0 && file_dependency_views(r.file_deps@)
                    == file_dependency_views(fds@),
                Err(e) => !r.successful && r.file_deps@.len() == 0 && r.error@ == (if tool is Maven {
                    "Failed to resolve Maven dependencies: "@
                } else {
                    "Failed to resolve Gradle dependencies: "@
                }) + e@,
            },
        },
{
    let r = match tool {
        BuildTool::Unknown => DependencyResponse { successful: true, error: String::new(), file_deps: Vec::new() },
        BuildTool::Maven => match resolved {
            Ok(fds) => DependencyResponse { successful: true, error: String::new(), file_deps: fds },
            Err(e) => DependencyResponse {
                successful: false,
                error: concat2("Failed to resolve Maven dependencies: ", e.as_str()),
                file_deps: Vec::new(),
            },
        },
        BuildTool::Gradle => match resolved {
            Ok(fds) => DependencyResponse { successful: true, error: String::new(), file_deps: fds },
            Err(e) => DependencyResponse {
                successful: false,
                error: concat2("Failed to resolve Gradle dependencies: ", e.as_str()),
                file_deps: Vec::new(),
            },
        },
    };
    r
}

/// The names of the capabilities the provider offers.
pub fn capability_names() -> (r: Vec<String>)
    ensures
        r@.map_values(|s: String| s@) == seq!["referenced"@, "java"@, "dependency"@],
{
    let mut r: Vec<String> = Vec::new();
    r.push(own("referenced"));
    r.push(own("java"));
    r.push(own("dependency"));
    assert(r@.map_values(|s: String| s@) =~= seq!["referenced"@, "java"@, "dependency"@]);
    r
}

// ---------------------------------------------------------------------------
// Code snippets
// ---------------------------------------------------------------------------

/// One line of a code snippet: `>>> ` on the marked line (four spaces on
/// the others), the line number right-aligned in `width` characters,
/// ` | ` and the line's text.
pub open spec fn snippet_entry(ls: Seq<Seq<char>>, idx: int, mark: int, width: nat) -> Seq<char> {
    (if idx + 1 == mark {
        ">>> "@
    } else {
        "    "@
    }) + right_aligned(decimal((idx + 1) as nat), width) + " | "@ + ls[idx]
}

/// The snippet lines of the lines at `from` up to `to`, each followed by a
/// line feed.
pub open spec fn snippet_with_newlines(ls: Seq<Seq<char>>, from: int, to: int, mark: int, width: nat) -> Seq<char>
    decreases to - from,
{
    if to <= from {
        Seq::empty()
    } else {
        snippet_with_newlines(ls, from, to - 1, mark, width) + snippet_entry(ls, to - 1, mark, width) + "\n"@
    }
}

/// The snippet lines of the lines at `from` up to `to`, joined by line
/// feeds.
pub open spec fn snippet_joined(ls: Seq<Seq<char>>, from: int, to: int, mark: int, width: nat) -> Seq<char>
    decreases to - from,
{
    if to <= from {
        Seq::empty()
    } else if to == from + 1 {
        snippet_entry(ls, from, mark, width)
    } else {
        snippet_joined(ls, from, to - 1, mark, width) + "\n"@ + snippet_entry(ls, to - 1, mark, width)
    }
}

/// Subtraction that stops at zero.
pub open spec fn sat_sub(a: int, b: int) -> int {
    if a > b {
        a - b
    } else {
        0
    }
}

/// The smaller of two numbers.
pub open spec fn min_of(a: int, b: int) -> int {
    if a < b {
        a
    } else {
        b
    }
}

/// One snippet line.
fn snippet_line(line: &str, idx: usize, mark: usize, width: usize) -> (r: String)
    requires
        idx < usize::MAX,
    ensures
        r@ == (if idx + 1 == mark {
            ">>> "@
        } else {
            "    "@
        }) + right_aligned(decimal((idx + 1) as nat), width as nat) + " | "@ + line@,
{
    let marker = if idx + 1 == mark {
        ">>> "
    } else {
        "    "
    };
    let number = pad_left(usize_to_string(idx + 1).as_str(), width);
    let head = concat3(marker, number.as_str(), " | ");
    concat2(head.as_str(), line)
}

/// The lines around line `line_num` (counting from one): `before` lines
/// before it and `after` after it where the text has them, each as
/// `>>> NNN | text` for the line itself and `    NNN | text` for the others,
/// with a line feed after each.
pub fn extract_code_snippet(content: &str, line_num: u32, before: usize, after: usize) -> (r: String)
    requires
        sat_sub(line_num as int, 1) + after + 1 <= usize::MAX,
        sat_sub(sat_sub(line_num as int, 1), before as int) <= min_of(
            sat_sub(line_num as int, 1) + after + 1,
            lines(content@).len() as int,
        ),
    ensures
        r@ == snippet_with_newlines(
            lines(content@),
            sat_sub(sat_sub(line_num as int, 1), before as int),
            min_of(sat_sub(line_num as int, 1) + after + 1, lines(content@).len() as int),
            line_num as int,
            3,
        ),
{
    let ls = lines_of(content);
    let ghost lv = ls@.map_values(|p: String| p@);
    let target: usize = if line_num >= 1 {
        (line_num - 1) as usize
    } else {
        0
    };
    let start: usize = if target > before {
        target - before
    } else {
        0
    };
    let end: usize = if target + after + 1 < ls.len() {
        target + after + 1
    } else {
        ls.len()
    };
    let mut out = String::new();
    assert(out@ =~= snippet_with_newlines(lv, start as int, start as int, line_num as int, 3));
    for idx in start..end
        invariant
            lv == ls@.map_values(|p: String| p@),
            lv == lines(content@),
            end <= ls@.len(),
            out@ == snippet_with_newlines(lv, start as int, idx as int, line_num as int, 3),
    {
        let entry = snippet_line(ls[idx].as_str(), idx, line_num as usize, 3);
        let next = concat3(out.as_str(), entry.as_str(), "\n");
        out = next;
    }
    out
}

/// The code around line `line_number` (counting from one), as answered to
/// a request for a snippet: from three lines before it (but not before
/// line one) to four lines after it (but not past the end), each as
/// `>>> NNNN | text` for the line itself and `    NNNN | text` for the
/// others, joined by line feeds.
pub fn code_snip(content: &str, line_number: usize) -> (r: String)
    requires
        line_number + 4 <= usize::MAX,
        if sat_sub(line_number as int, 3) > 1 {
            sat_sub(line_number as int, 3)
        } else {
            1
        } <= min_of(line_number + 4, lines(content@).len() as int),
    ensures
        r@ == snippet_joined(
            lines(content@),
            (if sat_sub(line_number as int, 3) > 1 {
                sat_sub(line_number as int, 3)
            } else {
                1
            }) - 1,
            min_of(line_number + 4, lines(content@).len() as int),
            line_number as int,
            4,
        ),
{
    let ls = lines_of(content);
    let ghost lv = ls@.map_values(|p: String| p@);
    let low: usize = if line_number > 3 {
        line_number - 3
    } else {
        0
    };
    let start: usize = if low > 1 {
        low
    } else {
        1
    };
    let end: usize = if line_number + 4 < ls.len() {
        line_number + 4
    } else {
        ls.len()
    };
    let mut out = String::new();
    assert(out@ =~= snippet_joined(lv, (start - 1) as int, (start - 1) as int, line_number as int, 4));
    for idx in start - 1..end
        invariant
            lv == ls@.map_values(|p: String| p@),
            lv == lines(content@),
            start >= 1,
            end <= ls@.len(),
            out@ == snippet_joined(lv, (start - 1) as int, idx as int, line_number as int, 4),
    {
        let entry = snippet_line(ls[idx].as_str(), idx, line_number, 4);
        if idx == start - 1 {
            out = entry;
        } else {
            let next = concat3(out.as_str(), "\n", entry.as_str());
            out = next;
        }
    }
    out
}

/// The answer to a request for the dependency graph: successful, with no
/// error and no graph.
pub fn get_dependencies_dag() -> (r: DependencyDagResponse)
    ensures
        r.successful,
        r.error@.len() == 0,
        r.file_dag_deps@.len() == 0,
{
    DependencyDagResponse { successful: true, error: String::new(), file_dag_deps: Vec::new() }
}

/// Whether an incident is the one for some dependency of the list that has
/// the condition's `group:artifact` and a version within the bounds.
pub open spec fn incident_from(
    name: Seq<char>,
    lower: Option<Seq<char>>,
    upper: Option<Seq<char>>,
    path: Seq<char>,
    deps: Seq<(MavenDependencyView, u32)>,
    inc: IncidentView,
) -> bool {
    exists|k: int|
        0 <= k < deps.len() && (#[trigger] deps[k]).0.group_id + ":"@ + deps[k].0.artifact_id == dependency_target(name)
            && (deps[k].0.version matches Some(v) && in_range(v, lower, upper) && inc == dependency_incident(path, deps[k].1, name, v))
}

/// Every incident of a build file's dependencies is that of a declared
/// dependency with the condition's `group:artifact` and a version within
/// the bounds.
pub proof fn law_matching_incidents_declared(
    name: Seq<char>,
    lower: Option<Seq<char>>,
    upper: Option<Seq<char>>,
    path: Seq<char>,
    deps: Seq<(MavenDependencyView, u32)>,
    m: int,
)
    requires
        0 <= m < matching_incidents(name, lower, upper, path, deps).len(),
    ensures
        incident_from(name, lower, upper, path, deps, matching_incidents(name, lower, upper, path, deps)[m]),
    decreases deps.len(),
{
    let rest = deps.drop_last();
    let prev = matching_incidents(name, lower, upper, path, rest);
    let inc = matching_incidents(name, lower, upper, path, deps)[m];
    if m < prev.len() {
        law_matching_incidents_declared(name, lower, upper, path, rest, m);
        let k = choose|k: int|
            0 <= k < rest.len() && (#[trigger] rest[k]).0.group_id + ":"@ + rest[k].0.artifact_id == dependency_target(
                name,
            ) && (rest[k].0.version matches Some(v) && in_range(v, lower, upper) && inc == dependency_incident(path, rest[k].1, name, v));
        assert(deps[k] == rest[k]);
    } else {
        let k = deps.len() - 1;
        assert(deps[k] == deps.last());
    }
}

/// Every incident that the POMs give is that of a dependency declared in
/// one of them with the condition's `group:artifact` and a version within
/// the bounds.
pub proof fn law_pom_incidents_declared(c: DependencyCondition, files: Seq<SourceFile>, m: int)
    requires
        0 <= m < pom_incidents(c, files).len(),
    ensures
        exists|i: int|
            0 <= i < files.len() && ((#[trigger] files[i]).content matches Some(t) && incident_from(
                c.name@,
                opt_view(c.lowerbound),
                opt_view(c.upperbound),
                files[i].path@,
                pom_dependency_lines(t@, files[i].path@),
                pom_incidents(c, files)[m],
            )),
    decreases files.len(),
{
    let rest = files.drop_last();
    let prev = pom_incidents(c, rest);
    let inc = pom_incidents(c, files)[m];
    if m < prev.len() {
        law_pom_incidents_declared(c, rest, m);
        let i = choose|i: int|
            0 <= i < rest.len() && ((#[trigger] rest[i]).content matches Some(t) && incident_from(
                c.name@,
                opt_view(c.lowerbound),
                opt_view(c.upperbound),
                rest[i].path@,
                pom_dependency_lines(t@, rest[i].path@),
                prev[m],
            ));
        assert(files[i] == rest[i]);
    } else {
        let f = files.last();
        let t = f.content->0;
        law_matching_incidents_declared(
            c.name@,
            opt_view(c.lowerbound),
            opt_view(c.upperbound),
            f.path@,
            pom_dependency_lines(t@, f.path@),
            m - prev.len(),
        );
        assert(files[files.len() - 1] == f);
    }
}

/// Every incident that the Gradle builds give is that of a dependency
/// declared in one of them with the condition's `group:artifact` and a
/// version within the bounds.
pub proof fn law_gradle_incidents_declared(c: DependencyCondition, files: Seq<SourceFile>, m: int)
    requires
        0 <= m < gradle_incidents(c, files).len(),
    ensures
        exists|i: int|
            0 <= i < files.len() && ((#[trigger] files[i]).content matches Some(t) && incident_from(
                c.name@,
                opt_view(c.lowerbound),
                opt_view(c.upperbound),
                files[i].path@,
                gradle_found(gradle_dependency_pattern(), lines(t@)),
                gradle_incidents(c, files)[m],
            )),
    decreases files.len(),
{
    let rest = files.drop_last();
    let prev = gradle_incidents(c, rest);
    if m < prev.len() {
        law_gradle_incidents_declared(c, rest, m);
        let i = choose|i: int|
            0 <= i < rest.len() && ((#[trigger] rest[i]).content matches Some(t) && incident_from(
                c.name@,
                opt_view(c.lowerbound),
                opt_view(c.upperbound),
                rest[i].path@,
                gradle_found(gradle_dependency_pattern(), lines(t@)),
                prev[m],
            ));
        assert(files[i] == rest[i]);
    } else {
        let f = files.last();
        let t = f.content->0;
        law_matching_incidents_declared(
            c.name@,
            opt_view(c.lowerbound),
            opt_view(c.upperbound),
            f.path@,
            gradle_found(gradle_dependency_pattern(), lines(t@)),
            m - prev.len(),
        );
        assert(files[files.len() - 1] == f);
    }
}

} // verus!

//! Patterns over symbol names, and queries over the analysed files by
//! location type.

use vstd::prelude::*;

use crate::java_graph::model::{
    annotation_views, field_views, method_views, string_views, AnnotationInfo, AnnotationInfoView,
    ClassInfo, ClassInfoView, ConstructorCallView, FieldInfo, FieldInfoView, FileInfo,
    FileInfoView, MethodCall, MethodCallView, MethodInfo, MethodInfoView, VariableDeclaration,
    VariableDeclarationView,
};
use crate::java_graph::model::view_opt;
use crate::java_graph::type_resolver::{flat, resolved_name, TypeResolver, TypeResolverView};
use crate::strmap::{entries_view, keys_of, lemma_insert_view, lemma_lookup_view, lookup, StrMap};
use crate::text::{
    chars_of, concat2, concat3, contains_char, contains_seq, contains_str, last_index_of,
    last_index_of_char, lowercase, opt_view, own, str_eq, string_of_range, to_lowercase,
};

verus! {

#[verifier::external_type_specification]
#[verifier::external_body]
pub struct ExRegex(regex::Regex);

#[verifier::external_type_specification]
#[verifier::external_body]
pub struct ExRegexError(regex::Error);

/// Whether `regex::Regex::new` accepts a pattern (its syntax is valid and
/// the compiled program fits the default size limit).
pub uninterp spec fn regex_compiles(pattern: Seq<char>) -> bool;

/// Whether the regex compiled from `pattern` finds a match anywhere in
/// `haystack` (what `regex::Regex::is_match` reports).
pub uninterp spec fn regex_finds(pattern: Seq<char>, haystack: Seq<char>) -> bool;

/// The capture groups of the first match that the regex compiled from
/// `pattern` finds in `haystack` (what `regex::Regex::captures` reports):
/// `None` when there is no match, else one entry per group, group 0 being
/// the whole match and a group that took no part being `None`.
pub uninterp spec fn regex_capture_groups(pattern: Seq<char>, haystack: Seq<char>) -> Option<
    Seq<Option<Seq<char>>>,
>;

/// The views of optional strings.
pub open spec fn opt_views(v: Seq<Option<String>>) -> Seq<Option<Seq<char>>> {
    v.map_values(|o: Option<String>| opt_view(o))
}

/// Whether a wildcard pattern matches the whole of a text: `*` matches any
/// run of characters (the empty one too), `?` exactly one character, and
/// every other character itself.
pub open spec fn wild_match(p: Seq<char>, v: Seq<char>) -> bool
    decreases p.len() + v.len(),
{
    if p.len() == 0 {
        v.len() == 0
    } else if p[0] == '*' {
        wild_match(p.drop_first(), v) || (v.len() > 0 && wild_match(p, v.drop_first()))
    } else {
        v.len() > 0 && (p[0] == '?' || p[0] == v[0]) && wild_match(p.drop_first(), v.drop_first())
    }
}

/// Calls `regex::Regex::new` and keeps the regex with the text it was
/// compiled from.
#[verifier::external_body]
fn regex_new(pattern: &str) -> (r: Result<CompiledRegex, regex::Error>)
    ensures
        r is Ok <==> regex_compiles(pattern@),
        r matches Ok(c) ==> c.source() == pattern@,
{
    match regex::Regex::new(pattern) {
        Ok(inner) => Ok(CompiledRegex { source: pattern.to_owned(), inner }),
        Err(e) => Err(e),
    }
}

/// Calls `<regex::Regex as Clone>::clone`: the same compiled regex, kept
/// with the same text.
#[verifier::external_body]
fn regex_clone(r: &CompiledRegex) -> (c: CompiledRegex)
    ensures
        c.source() == r.source(),
{
    CompiledRegex { source: r.source.clone(), inner: r.inner.clone() }
}

/// Calls `regex::Regex::is_match` on the regex compiled from the source
/// text it is kept with.
#[verifier::external_body]
fn regex_is_match(r: &CompiledRegex, haystack: &str) -> (b: bool)
    ensures
        b == regex_finds(r.source(), haystack@),
{
    r.inner.is_match(haystack)
}

/// Calls `regex::Regex::captures` on the regex compiled from the source
/// text it is kept with, and copies out the text of each group.
#[verifier::external_body]
fn regex_captures(r: &CompiledRegex, haystack: &str) -> (g: Option<Vec<Option<String>>>)
    ensures
        match g {
            Some(v) => regex_capture_groups(r.source(), haystack@) == Some(opt_views(v@)),
            None => regex_capture_groups(r.source(), haystack@) is None,
        },
{
    let caps = r.inner.captures(haystack)?;
    Some(caps.iter().map(|m| m.map(|m| m.as_str().to_owned())).collect())
}

/// Calls `wildmatch::WildMatch::new` on the pattern and `matches` on the
/// text; the crate documents the whole-text `*`/`?` matching stated.
#[verifier::external_body]
fn wildmatch_matches(pattern: &str, text: &str) -> (b: bool)
    ensures
        b == wild_match(pattern@, text@),
{
    wildmatch::WildMatch::new(pattern).matches(text)
}

/// A regular expression together with the text it was compiled from (the
/// two are paired only where `regex` compiles the text).
#[derive(Debug)]
pub struct CompiledRegex {
    source: String,
    inner: regex::Regex,
}

impl CompiledRegex {
    /// The text the regex was compiled from.
    pub closed spec fn source(&self) -> Seq<char> {
        self.source@
    }

    /// Compiles a regex; `None` when `regex` rejects the pattern.
    pub fn new(pattern: &str) -> (r: Option<CompiledRegex>)
        ensures
            r is Some <==> regex_compiles(pattern@),
            r matches Some(c) ==> c.source() == pattern@,
    {
        match regex_new(pattern) {
            Ok(c) => Some(c),
            Err(_) => None,
        }
    }

    /// Whether the regex matches somewhere in `haystack`.
    pub fn is_match(&self, haystack: &str) -> (b: bool)
        ensures
            b == regex_finds(self.source(), haystack@),
    {
        regex_is_match(self, haystack)
    }

    /// The capture groups of the first match in `haystack`.
    pub fn captures(&self, haystack: &str) -> (g: Option<Vec<Option<String>>>)
        ensures
            match g {
                Some(v) => regex_capture_groups(self.source(), haystack@) == Some(opt_views(v@)),
                None => regex_capture_groups(self.source(), haystack@) is None,
            },
    {
        regex_captures(self, haystack)
    }

    /// The source text.
    pub fn as_str(&self) -> (r: &str)
        ensures
            r@ == self.source(),
    {
        self.source.as_str()
    }

    /// A copy of the compiled regex.
    pub fn duplicate(&self) -> (r: CompiledRegex)
        ensures
            r.source() == self.source(),
    {
        regex_clone(self)
    }
}

/// Options of a pattern.
#[derive(Debug, Clone, Copy, PartialEq, Eq, Structural)]
pub struct PatternOptions {
    /// Match regardless of case.
    pub case_insensitive: bool,
    /// Match the whole text only.
    pub whole_word: bool,
}

impl Default for PatternOptions {
    fn default() -> (r: Self)
        ensures
            r == (PatternOptions { case_insensitive: false, whole_word: false }),
    {
        PatternOptions { case_insensitive: false, whole_word: false }
    }
}

/// A pattern over symbol names.
#[derive(Debug)]
pub enum Pattern {
    /// The text itself.
    Literal(String, PatternOptions),
    /// A wildcard pattern such as `*Service` (`*` stands for any run of
    /// characters).
    Wildcard(String, PatternOptions),
    /// A regular expression (case-insensitive ones carry `(?i)`).
    Regex(CompiledRegex, PatternOptions),
    /// A combination of patterns.
    Composite(CompositePattern),
}

/// Patterns combined.
#[derive(Debug)]
pub enum CompositePattern {
    /// Every pattern matches.
    And(Vec<Pattern>),
    /// Some pattern matches.
    Or(Vec<Pattern>),
    /// The pattern does not match.
    Not(Box<Pattern>),
}

/// Whether a literal matches a text: equal texts (equal after lowercasing
/// both when case-insensitive), and for whole-word matching also texts of
/// the same UTF-8 length.
pub open spec fn literal_matches(lit: Seq<char>, o: PatternOptions, v: Seq<char>) -> bool {
    let eq = if o.case_insensitive {
        lowercase(lit) == lowercase(v)
    } else {
        lit == v
    };
    if o.whole_word && eq {
        vstd::utf8::encode_utf8(lit).len() as usize == vstd::utf8::encode_utf8(v).len() as usize
    } else {
        eq
    }
}

/// Whether a wildcard matches a text (both lowercased when
/// case-insensitive).
pub open spec fn wildcard_matches(w: Seq<char>, o: PatternOptions, v: Seq<char>) -> bool {
    if o.case_insensitive {
        wild_match(lowercase(w), lowercase(v))
    } else {
        wild_match(w, v)
    }
}

/// Whether a pattern matches a text.
pub open spec fn pattern_matches(p: Pattern, v: Seq<char>) -> bool
    decreases p,
{
    match p {
        Pattern::Literal(s, o) => literal_matches(s@, o, v),
        Pattern::Wildcard(s, o) => wildcard_matches(s@, o, v),
        Pattern::Regex(r, _) => regex_finds(r.source(), v),
        Pattern::Composite(c) => match c {
            CompositePattern::And(ps) => forall|i: int|
                0 <= i < ps.len() ==> pattern_matches(#[trigger] ps@[i], v),
            CompositePattern::Or(ps) => exists|i: int|
                0 <= i < ps.len() && pattern_matches(#[trigger] ps@[i], v),
            CompositePattern::Not(b) => !pattern_matches(*b, v),
        },
    }
}

/// Why a pattern could not be made.
#[derive(Debug, Clone, PartialEq, Eq)]
pub enum PatternError {
    /// The text looked like a regular expression that `regex` rejects.
    InvalidRegex(String),
}

impl PatternError {
    /// The error's message: `Invalid regex pattern: ` and the text.
    pub fn message(&self) -> (r: String)
        ensures
            r@ == match self {
                PatternError::InvalidRegex(t) => "Invalid regex pattern: "@ + t@,
            },
    {
        match self {
            PatternError::InvalidRegex(t) => concat2("Invalid regex pattern: ", t.as_str()),
        }
    }
}

/// Characters that mark a pattern text as a regular expression.
pub open spec fn regex_indicators() -> Seq<char> {
    seq!['^', '$', '|', '+', '?', '[', '(', '{', '\\']
}

/// Whether a pattern text holds one of the indicator characters.
pub open spec fn holds_indicator(s: Seq<char>) -> bool {
    exists|i: int| 0 <= i < s.len() && #[trigger] regex_indicators().contains(s[i])
}

/// Whether a pattern text is read as a regular expression: it holds one of
/// the indicator characters, or `.*`.
pub open spec fn looks_like_regex(s: Seq<char>) -> bool {
    holds_indicator(s) || contains_seq(s, ".*"@)
}

/// The regular expression a pattern text stands for: the text itself when
/// it holds an indicator character (found anywhere in a name); a text whose
/// only mark is `.*`, such as `org.springframework.*`, must match the whole
/// name.
pub open spec fn regex_body(s: Seq<char>) -> Seq<char> {
    if holds_indicator(s) {
        s
    } else {
        "^(?:"@ + s + ")$"@
    }
}

/// The regex source for a pattern text: prefixed with `(?i)` when
/// case-insensitive.
pub open spec fn regex_source(s: Seq<char>, o: PatternOptions) -> Seq<char> {
    if o.case_insensitive {
        "(?i)"@ + regex_body(s)
    } else {
        regex_body(s)
    }
}

/// Whether `p` is the pattern made from the text `s`: a regex when the text
/// looks like one, a wildcard when it holds `*`, a literal otherwise.
pub open spec fn compiled_from(p: Pattern, s: Seq<char>, o: PatternOptions) -> bool {
    if looks_like_regex(s) {
        p matches Pattern::Regex(c, q) && c.source() == regex_source(s, o) && q == o
    } else if s.contains('*') {
        p matches Pattern::Wildcard(w, q) && w@ == s && q == o
    } else {
        p matches Pattern::Literal(l, q) && l@ == s && q == o
    }
}

/// Whether two patterns have the same structure, texts, regex sources and
/// options.
pub open spec fn same_pattern(a: Pattern, b: Pattern) -> bool
    decreases a,
{
    match a {
        Pattern::Literal(s, o) => match b {
            Pattern::Literal(t, q) => s@ == t@ && o == q,
            _ => false,
        },
        Pattern::Wildcard(s, o) => match b {
            Pattern::Wildcard(t, q) => s@ == t@ && o == q,
            _ => false,
        },
        Pattern::Regex(r, o) => match b {
            Pattern::Regex(t, q) => r.source() == t.source() && o == q,
            _ => false,
        },
        Pattern::Composite(c) => match c {
            CompositePattern::And(ps) => match b {
                Pattern::Composite(CompositePattern::And(qs)) => ps.len() == qs.len() && forall|i: int|
                    0 <= i < ps.len() ==> same_pattern(#[trigger] ps@[i], qs@[i]),
                _ => false,
            },
            CompositePattern::Or(ps) => match b {
                Pattern::Composite(CompositePattern::Or(qs)) => ps.len() == qs.len() && forall|i: int|
                    0 <= i < ps.len() ==> same_pattern(#[trigger] ps@[i], qs@[i]),
                _ => false,
            },
            CompositePattern::Not(x) => match b {
                Pattern::Composite(CompositePattern::Not(y)) => same_pattern(*x, *y),
                _ => false,
            },
        },
    }
}

/// Patterns of the same structure match the same texts.
pub proof fn lemma_same_pattern_matches(a: Pattern, b: Pattern, v: Seq<char>)
    requires
        same_pattern(a, b),
    ensures
        pattern_matches(a, v) == pattern_matches(b, v),
    decreases a,
{
    match a {
        Pattern::Composite(c) => match c {
            CompositePattern::And(ps) => {
                if let Pattern::Composite(CompositePattern::And(qs)) = b {
                    assert forall|i: int| 0 <= i < ps.len() implies pattern_matches(
                        #[trigger] ps@[i],
                        v,
                    ) == pattern_matches(qs@[i], v) by {
                        lemma_same_pattern_matches(ps@[i], qs@[i], v);
                    }
                    if pattern_matches(a, v) {
                        assert forall|i: int| 0 <= i < qs.len() implies pattern_matches(
                            #[trigger] qs@[i],
                            v,
                        ) by {
                            assert(pattern_matches(ps@[i], v));
                        }
                    }
                    if pattern_matches(b, v) {
                        assert forall|i: int| 0 <= i < ps.len() implies pattern_matches(
                            #[trigger] ps@[i],
                            v,
                        ) by {
                            assert(pattern_matches(qs@[i], v));
                        }
                    }
                }
            },
            CompositePattern::Or(ps) => {
                if let Pattern::Composite(CompositePattern::Or(qs)) = b {
                    assert forall|i: int| 0 <= i < ps.len() implies pattern_matches(
                        #[trigger] ps@[i],
                        v,
                    ) == pattern_matches(qs@[i], v) by {
                        lemma_same_pattern_matches(ps@[i], qs@[i], v);
                    }
                    if pattern_matches(a, v) {
                        let i = choose|i: int| 0 <= i < ps.len() && pattern_matches(#[trigger] ps@[i], v);
                        assert(pattern_matches(qs@[i], v));
                    }
                    if pattern_matches(b, v) {
                        let i = choose|i: int| 0 <= i < qs.len() && pattern_matches(#[trigger] qs@[i], v);
                        assert(pattern_matches(ps@[i], v));
                    }
                }
            },
            CompositePattern::Not(x) => {
                if let Pattern::Composite(CompositePattern::Not(y)) = b {
                    lemma_same_pattern_matches(*x, *y, v);
                }
            },
        },
        _ => {},
    }
}

/// A conjunction of patterns matches a text exactly when every one of them
/// does; the empty conjunction matches every text.
pub proof fn law_and_matches_all(patterns: Vec<Pattern>, v: Seq<char>)
    ensures
        pattern_matches(Pattern::Composite(CompositePattern::And(patterns)), v) <==> forall|i: int|
            0 <= i < patterns.len() ==> pattern_matches(#[trigger] patterns@[i], v),
        patterns.len() == 0 ==> pattern_matches(Pattern::Composite(CompositePattern::And(patterns)), v),
{
    let p = Pattern::Composite(CompositePattern::And(patterns));
    assert(decreases_to!(p => p->Composite_0));
    assert(decreases_to!(p->Composite_0 => p->Composite_0->And_0));
    assert(decreases_to!(patterns => patterns@));
    assert forall|i: int| 0 <= i < patterns.len() implies pattern_matches(#[trigger] patterns@[i], v) == pattern_matches(patterns@[i], v) && decreases_to!(patterns@ => patterns@[i]) by {}
    reveal_with_fuel(pattern_matches, 2);
}

/// A disjunction of patterns matches a text exactly when one of them does;
/// the empty disjunction matches no text.
pub proof fn law_or_matches_some(patterns: Vec<Pattern>, v: Seq<char>)
    ensures
        pattern_matches(Pattern::Composite(CompositePattern::Or(patterns)), v) <==> exists|i: int|
            0 <= i < patterns.len() && pattern_matches(#[trigger] patterns@[i], v),
        patterns.len() == 0 ==> !pattern_matches(Pattern::Composite(CompositePattern::Or(patterns)), v),
{
    let p = Pattern::Composite(CompositePattern::Or(patterns));
    assert(decreases_to!(p => p->Composite_0));
    assert(decreases_to!(p->Composite_0 => p->Composite_0->Or_0));
    assert(decreases_to!(patterns => patterns@));
    assert forall|i: int| 0 <= i < patterns.len() implies pattern_matches(#[trigger] patterns@[i], v) == pattern_matches(patterns@[i], v) && decreases_to!(patterns@ => patterns@[i]) by {}
    reveal_with_fuel(pattern_matches, 2);
}

/// A negated pattern matches exactly the texts the pattern does not match,
/// and negating twice gives back the pattern's matches.
pub proof fn law_not_negates(pattern: Pattern, v: Seq<char>)
    ensures
        pattern_matches(Pattern::Composite(CompositePattern::Not(Box::new(pattern))), v) == !pattern_matches(pattern, v),
        pattern_matches(
            Pattern::Composite(CompositePattern::Not(Box::new(Pattern::Composite(CompositePattern::Not(Box::new(pattern)))))),
            v,
        ) == pattern_matches(pattern, v),
{
    reveal_with_fuel(pattern_matches, 3);
}

/// Two patterns made from the same text with the same options match the same
/// texts: a cached pattern behaves as a freshly made one.
pub proof fn law_compiled_patterns_agree(a: Pattern, b: Pattern, s: Seq<char>, o: PatternOptions, v: Seq<char>)
    requires
        compiled_from(a, s, o),
        compiled_from(b, s, o),
    ensures
        pattern_matches(a, v) == pattern_matches(b, v),
{
}

/// A pattern made with the default options from a text that holds no
/// regular-expression marker and no `*` matches that text and nothing else.
pub proof fn law_plain_text_matches_itself(p: Pattern, s: Seq<char>, v: Seq<char>)
    requires
        compiled_from(p, s, default_options()),
        !looks_like_regex(s),
        !s.contains('*'),
    ensures
        pattern_matches(p, v) <==> v == s,
{
}

/// Whether the text holds one of the characters.
fn holds_any(cs: &Vec<char>, set: &Vec<char>) -> (b: bool)
    ensures
        b == exists|i: int| 0 <= i < cs@.len() && #[trigger] set@.contains(cs@[i]),
{
    let n = cs.len();
    for i in 0..n
        invariant
            n == cs@.len(),
            forall|j: int| 0 <= j < i ==> !(#[trigger] set@.contains(cs@[j])),
    {
        if contains_char(set.as_slice(), cs[i]) {
            return true;
        }
    }
    false
}

impl Pattern {
    /// The text of a literal or wildcard pattern.
    pub fn as_string(&self) -> (r: Option<&str>)
        ensures
            match self {
                Pattern::Literal(s, _) => r matches Some(t) && t@ == s@,
                Pattern::Wildcard(s, _) => r matches Some(t) && t@ == s@,
                _ => r is None,
            },
    {
        match self {
            Pattern::Literal(s, _) => Some(s.as_str()),
            Pattern::Wildcard(s, _) => Some(s.as_str()),
            Pattern::Regex(_, _) => None,
            Pattern::Composite(_) => None,
        }
    }

    /// Makes a pattern from a text with the default options.
    pub fn from_string(s: &str) -> (r: Result<Pattern, PatternError>)
        ensures
            match r {
                Ok(p) => compiled_from(p, s@, PatternOptions { case_insensitive: false, whole_word: false }),
                Err(e) => looks_like_regex(s@) && !regex_compiles(regex_body(s@)) && (e matches PatternError::InvalidRegex(t) && t@ == s@),
            },
            looks_like_regex(s@) ==> (r is Ok <==> regex_compiles(regex_body(s@))),
    {
        Self::from_string_with_options(s, PatternOptions { case_insensitive: false, whole_word: false })
    }

    /// Makes a pattern from a text: a regular expression when the text holds
    /// one of `^ $ | + ? [ ( { \` or `.*` (with `(?i)` in front when
    /// case-insensitive; a text whose only mark is `.*`, such as
    /// `org.springframework.*`, must match the whole name), a wildcard when
    /// it holds `*`, a literal otherwise.
    pub fn from_string_with_options(s: &str, options: PatternOptions) -> (r: Result<
        Pattern,
        PatternError,
    >)
        ensures
            match r {
                Ok(p) => compiled_from(p, s@, options),
                Err(e) => looks_like_regex(s@) && !regex_compiles(regex_source(s@, options)) && (e matches PatternError::InvalidRegex(t) && t@ == s@),
            },
            looks_like_regex(s@) ==> (r is Ok <==> regex_compiles(regex_source(s@, options))),
    {
        let cs = chars_of(s);
        let indicators = vec!['^', '$', '|', '+', '?', '[', '(', '{', '\\'];
        assert(indicators@ == regex_indicators());
        let has_regex_char = holds_any(&cs, &indicators);
        let has_dot_star = contains_str(s, ".*");
        if has_regex_char || has_dot_star {
            let body = if has_regex_char {
                own(s)
            } else {
                concat3("^(?:", s, ")$")
            };
            let source = if options.case_insensitive {
                concat2("(?i)", body.as_str())
            } else {
                body
            };
            match CompiledRegex::new(source.as_str()) {
                Some(re) => Ok(Pattern::Regex(re, options)),
                None => Err(PatternError::InvalidRegex(own(s))),
            }
        } else if contains_char(cs.as_slice(), '*') {
            Ok(Pattern::Wildcard(own(s), options))
        } else {
            Ok(Pattern::Literal(own(s), options))
        }
    }

    /// Makes a case-insensitive pattern from a text.
    pub fn from_string_case_insensitive(s: &str) -> (r: Result<Pattern, PatternError>)
        ensures
            match r {
                Ok(p) => compiled_from(p, s@, PatternOptions { case_insensitive: true, whole_word: false }),
                Err(e) => looks_like_regex(s@) && !regex_compiles("(?i)"@ + regex_body(s@)) && (e matches PatternError::InvalidRegex(t) && t@ == s@),
            },
            looks_like_regex(s@) ==> (r is Ok <==> regex_compiles("(?i)"@ + regex_body(s@))),
    {
        Self::from_string_with_options(s, PatternOptions { case_insensitive: true, whole_word: false })
    }

    /// All of the patterns.
    pub fn and(patterns: Vec<Pattern>) -> (r: Pattern)
        ensures
            r == Pattern::Composite(CompositePattern::And(patterns)),
    {
        Pattern::Composite(CompositePattern::And(patterns))
    }

    /// Any of the patterns.
    pub fn or(patterns: Vec<Pattern>) -> (r: Pattern)
        ensures
            r == Pattern::Composite(CompositePattern::Or(patterns)),
    {
        Pattern::Composite(CompositePattern::Or(patterns))
    }

    /// The negation of the pattern.
    pub fn not(pattern: Pattern) -> (r: Pattern)
        ensures
            r == Pattern::Composite(CompositePattern::Not(Box::new(pattern))),
    {
        Pattern::Composite(CompositePattern::Not(Box::new(pattern)))
    }

    /// Whether the pattern matches a text.
    pub fn matches(&self, value: &str) -> (b: bool)
        ensures
            b == pattern_matches(*self, value@),
        decreases self,
    {
        match self {
            Pattern::Literal(literal, options) => {
                let eq = if options.case_insensitive {
                    let a = to_lowercase(literal.as_str());
                    let b = to_lowercase(value);
                    str_eq(a.as_str(), b.as_str())
                } else {
                    str_eq(literal.as_str(), value)
                };
                if options.whole_word && eq {
                    literal.as_str().len() == value.len()
                } else {
                    eq
                }
            },
            Pattern::Wildcard(wildcard, options) => {
                if options.case_insensitive {
                    let p = to_lowercase(wildcard.as_str());
                    let v = to_lowercase(value);
                    wildmatch_matches(p.as_str(), v.as_str())
                } else {
                    wildmatch_matches(wildcard.as_str(), value)
                }
            },
            Pattern::Regex(regex, _) => regex.is_match(value),
            Pattern::Composite(composite) => composite.matches(value),
        }
    }

    /// A copy of the pattern.
    pub fn duplicate(&self) -> (r: Pattern)
        ensures
            same_pattern(*self, r),
        decreases self,
    {
        match self {
            Pattern::Literal(s, o) => Pattern::Literal(s.clone(), *o),
            Pattern::Wildcard(s, o) => Pattern::Wildcard(s.clone(), *o),
            Pattern::Regex(r, o) => Pattern::Regex(r.duplicate(), *o),
            Pattern::Composite(c) => Pattern::Composite(c.duplicate()),
        }
    }
}

impl CompositePattern {
    /// Whether the combination matches a text.
    pub fn matches(&self, value: &str) -> (b: bool)
        ensures
            b == pattern_matches(Pattern::Composite(*self), value@),
        decreases self,
    {
        match self {
            CompositePattern::And(patterns) => {
                let n = patterns.len();
                for i in 0..n
                    invariant
                        n == patterns@.len(),
                        *self == CompositePattern::And(*patterns),
                        forall|j: int| 0 <= j < i ==> pattern_matches(#[trigger] patterns@[j], value@),
                {
                    proof {
                        assert((*self)->And_0 == *patterns);
                        assert(decreases_to!(*self => (*self)->And_0));
                        assert(decreases_to!(*patterns => patterns@));
                        assert(decreases_to!(patterns@ => patterns@[i as int]));
                    }
                    if !patterns[i].matches(value) {
                        assert(!pattern_matches(patterns@[i as int], value@));
                        assert(!pattern_matches(Pattern::Composite(*self), value@)) by {
                            reveal_with_fuel(pattern_matches, 2);
                        }
                        return false;
                    }
                }
                true
            },
            CompositePattern::Or(patterns) => {
                let n = patterns.len();
                for i in 0..n
                    invariant
                        n == patterns@.len(),
                        *self == CompositePattern::Or(*patterns),
                        forall|j: int| 0 <= j < i ==> !pattern_matches(#[trigger] patterns@[j], value@),
                {
                    proof {
                        assert((*self)->Or_0 == *patterns);
                        assert(decreases_to!(*self => (*self)->Or_0));
                        assert(decreases_to!(*patterns => patterns@));
                        assert(decreases_to!(patterns@ => patterns@[i as int]));
                    }
                    if patterns[i].matches(value) {
                        assert(pattern_matches(patterns@[i as int], value@));
                        assert(pattern_matches(Pattern::Composite(*self), value@)) by {
                            reveal_with_fuel(pattern_matches, 2);
                        }
                        return true;
                    }
                }
                false
            },
            CompositePattern::Not(pattern) => !pattern.matches(value),
        }
    }

    fn duplicate(&self) -> (r: CompositePattern)
        ensures
            same_pattern(Pattern::Composite(*self), Pattern::Composite(r)),
        decreases self,
    {
        match self {
            CompositePattern::And(patterns) => CompositePattern::And(duplicate_all(patterns)),
            CompositePattern::Or(patterns) => CompositePattern::Or(duplicate_all(patterns)),
            CompositePattern::Not(pattern) => CompositePattern::Not(Box::new(pattern.duplicate())),
        }
    }
}

fn duplicate_all(patterns: &Vec<Pattern>) -> (r: Vec<Pattern>)
    ensures
        r@.len() == patterns@.len(),
        forall|i: int| 0 <= i < r@.len() ==> same_pattern(#[trigger] patterns@[i], r@[i]),
    decreases patterns,
{
    let mut out: Vec<Pattern> = Vec::new();
    let n = patterns.len();
    for i in 0..n
        invariant
            n == patterns@.len(),
            out@.len() == i,
            forall|j: int| 0 <= j < i ==> same_pattern(#[trigger] patterns@[j], out@[j]),
    {
        out.push(patterns[i].duplicate());
    }
    out
}

/// The default options: case-sensitive, partial words allowed.
pub open spec fn default_options() -> PatternOptions {
    PatternOptions { case_insensitive: false, whole_word: false }
}

proof fn lemma_same_compiled(a: Pattern, b: Pattern, s: Seq<char>, o: PatternOptions)
    requires
        same_pattern(a, b),
        compiled_from(a, s, o),
    ensures
        compiled_from(b, s, o),
{
}

/// Patterns made from texts, kept by text.
#[derive(Debug)]
pub struct PatternCache {
    compiled_patterns: StrMap<Pattern>,
}

impl PatternCache {
    #[verifier::type_invariant]
    spec fn entries_compiled(self) -> bool {
        forall|i: int|
            0 <= i < self.compiled_patterns@.len() ==> compiled_from(
                #[trigger] self.compiled_patterns@[i].1,
                self.compiled_patterns@[i].0,
                default_options(),
            )
    }

    /// The texts whose patterns are kept, in the order they were first
    /// made.
    pub closed spec fn texts(self) -> Seq<Seq<char>> {
        keys_of(self.compiled_patterns@)
    }

    /// An empty cache.
    pub fn new() -> (c: Self)
        ensures
            c.texts().len() == 0,
    {
        let c = PatternCache { compiled_patterns: StrMap::new() };
        assert(c.texts() =~= Seq::<Seq<char>>::empty());
        c
    }

    /// The pattern made from a text with the default options: the kept one
    /// when the text was seen before, else a new one, kept when it could be
    /// made.
    pub fn get_or_compile(&mut self, pattern_str: &str) -> (r: Result<Pattern, PatternError>)
        ensures
            match r {
                Ok(p) => compiled_from(p, pattern_str@, default_options()),
                Err(e) => looks_like_regex(pattern_str@) && !regex_compiles(regex_body(pattern_str@)) && (e matches PatternError::InvalidRegex(t) && t@ == pattern_str@),
            },
            old(self).texts().contains(pattern_str@) ==> r is Ok && final(self).texts() == old(self).texts(),
            !old(self).texts().contains(pattern_str@) ==> final(self).texts() == if r is Ok {
                old(self).texts().push(pattern_str@)
            } else {
                old(self).texts()
            },
    {
        proof {
            use_type_invariant(&*self);
        }
        match self.compiled_patterns.get(pattern_str) {
            Some(p) => {
                proof {
                    let i = choose|i: int|
                        0 <= i < self.compiled_patterns@.len() && self.compiled_patterns@[i].0
                            == pattern_str@;
                    assert(compiled_from(self.compiled_patterns@[i].1, pattern_str@, default_options()));
                }
                let d = p.duplicate();
                proof {
                    lemma_same_compiled(*p, d, pattern_str@, default_options());
                }
                return Ok(d);
            },
            None => {},
        }
        match Pattern::from_string(pattern_str) {
            Ok(p) => {
                let d = p.duplicate();
                proof {
                    lemma_same_compiled(p, d, pattern_str@, default_options());
                }
                let ghost before = self.compiled_patterns@;
                let mut map = StrMap::new();
                std::mem::swap(&mut map, &mut self.compiled_patterns);
                map.insert(own(pattern_str), p);
                assert(map@ == before.push((pattern_str@, p)));
                assert(keys_of(map@) =~= keys_of(before).push(pattern_str@));
                self.compiled_patterns = map;
                Ok(d)
            },
            Err(e) => Err(e),
        }
    }

    /// Forgets all patterns.
    pub fn clear(&mut self)
        ensures
            final(self).texts().len() == 0,
    {
        self.compiled_patterns = StrMap::new();
        assert(self.texts() =~= Seq::<Seq<char>>::empty());
    }

    /// The number of patterns kept.
    pub fn size(&self) -> (n: usize)
        ensures
            n == self.texts().len(),
    {
        self.compiled_patterns.len()
    }
}

/// The kinds of places a query can look at.
#[derive(Debug, Clone, Copy, PartialEq, Eq, Structural)]
pub enum LocationType {
    /// Class, interface and enum declarations.
    Type,
    Import,
    Package,
    Variable,
    Field,
    Method,
    /// Class declarations only.
    Class,
    Enum,
    /// `extends` clauses.
    Inheritance,
    /// `implements` clauses.
    ImplementsType,
    MethodCall,
    ConstructorCall,
    Annotation,
    ReturnType,
}

/// An access modifier.
#[derive(Debug, Clone, Copy, PartialEq, Eq, Structural)]
pub enum AccessModifier {
    Public,
    Protected,
    Private,
    /// Package-private.
    Package,
}

/// An annotation that the matched elements must carry.
#[derive(Debug)]
pub struct AnnotationFilter {
    /// The annotation's name or qualified name, as a pattern.
    pub pattern: Option<String>,
    /// Element values the annotation must have, by element name.
    pub elements: StrMap<String>,
}

/// Further filters on query results.
#[derive(Debug)]
pub struct QueryFilters {
    pub annotated: Option<AnnotationFilter>,
    pub access_modifier: Option<AccessModifier>,
    pub is_static: Option<bool>,
    pub is_final: Option<bool>,
    pub is_abstract: Option<bool>,
    /// Leave out test files and classes.
    pub exclude_tests: bool,
    pub deprecated_only: bool,
}

impl Default for QueryFilters {
    fn default() -> (r: Self)
        ensures
            r.annotated is None,
            r.access_modifier is None,
            r.is_static is None,
            r.is_final is None,
            r.is_abstract is None,
            !r.exclude_tests,
            !r.deprecated_only,
    {
        QueryFilters {
            annotated: None,
            access_modifier: None,
            is_static: None,
            is_final: None,
            is_abstract: None,
            exclude_tests: false,
            deprecated_only: false,
        }
    }
}

/// A query for places that reference a pattern.
#[derive(Debug)]
pub struct ReferencedQuery {
    pub pattern: Pattern,
    pub location: LocationType,
    pub annotated: Option<AnnotationFilter>,
    pub filters: Option<QueryFilters>,
}

/// A place that matched a query.
#[derive(Debug, Clone, PartialEq, Eq)]
pub struct QueryResult {
    pub file_path: String,
    pub line_number: usize,
    pub column: usize,
    pub symbol: String,
    pub fqdn: Option<String>,
}

/// The mathematical value of a [`QueryResult`].
pub struct QueryResultView {
    pub file_path: Seq<char>,
    pub line_number: usize,
    pub column: usize,
    pub symbol: Seq<char>,
    pub fqdn: Option<Seq<char>>,
}

impl View for QueryResult {
    type V = QueryResultView;

    open spec fn view(&self) -> QueryResultView {
        QueryResultView {
            file_path: self.file_path@,
            line_number: self.line_number,
            column: self.column,
            symbol: self.symbol@,
            fqdn: opt_view(self.fqdn),
        }
    }
}

impl QueryResult {
    /// A copy of this result.
    pub fn duplicate(&self) -> (r: QueryResult)
        ensures
            r@ == self@,
    {
        QueryResult {
            file_path: own(self.file_path.as_str()),
            line_number: self.line_number,
            column: self.column,
            symbol: own(self.symbol.as_str()),
            fqdn: match &self.fqdn {
                Some(f) => Some(own(f.as_str())),
                None => None,
            },
        }
    }
}

/// The views of a list of results.
pub open spec fn result_views(v: Seq<QueryResult>) -> Seq<QueryResultView> {
    v.map_values(|r: QueryResult| r@)
}

// ---------------------------------------------------------------------------
// Query semantics
// ---------------------------------------------------------------------------

/// Whether the pattern made from a text with the default options matches
/// a value.
pub open spec fn text_pattern_matches(ps: Seq<char>, v: Seq<char>) -> bool {
    if looks_like_regex(ps) {
        regex_finds(regex_body(ps), v)
    } else if ps.contains('*') {
        wild_match(ps, v)
    } else {
        ps == v
    }
}

/// Whether a pattern can be made from a text with the default options.
pub open spec fn pattern_ok(ps: Seq<char>) -> bool {
    !looks_like_regex(ps) || regex_compiles(regex_body(ps))
}

/// A pattern made from a text matches as the text's pattern does.
pub proof fn lemma_compiled_matches(p: Pattern, s: Seq<char>, v: Seq<char>)
    requires
        compiled_from(p, s, default_options()),
    ensures
        pattern_matches(p, v) == text_pattern_matches(s, v),
{
}

/// The text of a literal or wildcard pattern.
pub open spec fn pattern_text(p: Pattern) -> Option<Seq<char>> {
    match p {
        Pattern::Literal(s, _) => Some(s@),
        Pattern::Wildcard(s, _) => Some(s@),
        _ => None,
    }
}

/// A result.
pub open spec fn qr(
    path: Seq<char>,
    line: usize,
    column: usize,
    symbol: Seq<char>,
    fqdn: Option<Seq<char>>,
) -> QueryResultView {
    QueryResultView { file_path: path, line_number: line, column, symbol, fqdn }
}

/// One value when the condition holds, none otherwise.
pub open spec fn opt_if<A>(b: bool, a: A) -> Seq<A> {
    if b {
        seq![a]
    } else {
        Seq::empty()
    }
}

/// A resolution, or the name itself when it does not resolve.
pub open spec fn or_name(o: Option<Seq<char>>, name: Seq<char>) -> Seq<char> {
    match o {
        Some(x) => x,
        None => name,
    }
}

/// An element value satisfies a required one: through the pattern made
/// from the required text when it can be made, by equality otherwise.
pub open spec fn value_satisfies(actual: Seq<char>, required: Seq<char>) -> bool {
    if pattern_ok(required) {
        text_pattern_matches(required, actual)
    } else {
        actual == required
    }
}

/// An annotation has every required element with a satisfying value.
pub open spec fn elements_satisfied(
    a: AnnotationInfoView,
    required: Seq<(Seq<char>, Seq<char>)>,
) -> bool {
    forall|k: int|
        0 <= k < required.len() ==> match lookup(a.elements, #[trigger] required[k].0) {
            Some(actual) => value_satisfies(actual, required[k].1),
            None => false,
        }
}

/// An annotation satisfies a filter: its name or qualified name matches
/// the filter's pattern (when there is one and it can be made), and it has
/// the required elements.
pub open spec fn annotation_satisfies(
    a: AnnotationInfoView,
    pattern: Option<Seq<char>>,
    required: Seq<(Seq<char>, Seq<char>)>,
) -> bool {
    &&& match pattern {
        None => true,
        Some(ps) => pattern_ok(ps) && (text_pattern_matches(ps, a.name) || (a.fqdn matches Some(q)
            && text_pattern_matches(ps, q))),
    }
    &&& elements_satisfied(a, required)
}

/// Whether some annotation satisfies the filter.
pub open spec fn filter_matches(
    anns: Seq<AnnotationInfoView>,
    pattern: Option<Seq<char>>,
    required: Seq<(Seq<char>, Seq<char>)>,
) -> bool {
    exists|i: int| 0 <= i < anns.len() && annotation_satisfies(#[trigger] anns[i], pattern, required)
}

/// The filter's pattern text.
pub open spec fn filter_pattern(f: AnnotationFilter) -> Option<Seq<char>> {
    opt_view(f.pattern)
}

/// The filter's required elements.
pub open spec fn filter_elements(f: AnnotationFilter) -> Seq<(Seq<char>, Seq<char>)> {
    entries_view(f.elements@)
}

/// Whether annotations pass an optional filter.
pub open spec fn passes_filter(anns: Seq<AnnotationInfoView>, f: Option<AnnotationFilter>) -> bool {
    match f {
        None => true,
        Some(f) => filter_matches(anns, filter_pattern(f), filter_elements(f)),
    }
}

/// The index of the first occurrence of a character.
pub open spec fn first_index_of(s: Seq<char>, c: char) -> Option<int> {
    if s.contains(c) {
        Some(choose|i: int| 0 <= i < s.len() && s[i] == c && forall|j: int| 0 <= j < i ==> s[j] != c)
    } else {
        None
    }
}

/// A `name type` pattern text split at its first space.
pub open spec fn split_name_type(ps: Seq<char>) -> (Seq<char>, Seq<char>) {
    let k = first_index_of(ps, ' ')->0;
    (ps.take(k), ps.skip(k + 1))
}

/// Whether a name and a type satisfy a `name type` pattern text: the name
/// part is `*`, the name itself, or a pattern matching it; the type part
/// is a pattern matching the resolved or the written type.
pub open spec fn name_type_matches(
    ps: Seq<char>,
    name: Seq<char>,
    resolved: Seq<char>,
    written: Seq<char>,
) -> bool {
    let (np, tp) = split_name_type(ps);
    let name_ok = np == "*"@ || np == name || (pattern_ok(np) && text_pattern_matches(np, name));
    let type_ok = pattern_ok(tp) && (text_pattern_matches(tp, resolved) || text_pattern_matches(
        tp,
        written,
    ));
    name_ok && type_ok
}

// Per-location results of one file.

pub open spec fn import_results(p: Pattern, path: Seq<char>, fi: FileInfoView) -> Seq<QueryResultView> {
    flat(
        fi.explicit_imports.map_values(
            |e: (Seq<char>, Seq<char>)|
                opt_if(pattern_matches(p, e.1) || pattern_matches(p, e.0), qr(path, 0, 0, e.0, Some(e.1))),
        ),
    ) + flat(
        fi.wildcard_imports.map_values(
            |w: Seq<char>| opt_if(pattern_matches(p, w), qr(path, 0, 0, w + ".*"@, Some(w))),
        ),
    )
}

/// Package candidates of a file: its package, the packages of its explicit
/// imports, its wildcard packages, each with its symbol.
pub open spec fn package_candidates(fi: FileInfoView) -> Seq<(Seq<char>, Seq<char>)> {
    (match fi.package_name {
        Some(p) => seq![(p, p)],
        None => Seq::empty(),
    }) + flat(
        fi.explicit_imports.map_values(
            |e: (Seq<char>, Seq<char>)|
                match last_index_of(e.1, '.') {
                    Some(k) => seq![(e.1.take(k), e.1.take(k))],
                    None => Seq::empty(),
                },
        ),
    ) + fi.wildcard_imports.map_values(|w: Seq<char>| (w, w + ".*"@))
}

/// The matching candidates, each package once (the first kept), and the
/// packages seen.
pub open spec fn package_scan(p: Pattern, cands: Seq<(Seq<char>, Seq<char>)>) -> (
    Seq<Seq<char>>,
    Seq<(Seq<char>, Seq<char>)>,
)
    decreases cands.len(),
{
    if cands.len() == 0 {
        (Seq::empty(), Seq::empty())
    } else {
        let prev = package_scan(p, cands.drop_last());
        let c = cands.last();
        if pattern_matches(p, c.0) && !prev.0.contains(c.0) {
            (prev.0.push(c.0), prev.1.push(c))
        } else {
            prev
        }
    }
}

pub open spec fn package_results(p: Pattern, path: Seq<char>, fi: FileInfoView) -> Seq<QueryResultView> {
    package_scan(p, package_candidates(fi)).1.map_values(
        |c: (Seq<char>, Seq<char>)| qr(path, 0, 0, c.1, Some(c.0)),
    )
}

/// A declaration result for a class.
pub open spec fn class_result(path: Seq<char>, c: ClassInfoView) -> QueryResultView {
    qr(path, c.position.line, c.position.column, c.simple_name, Some(c.fqdn))
}

/// Whether the pattern matches a class's qualified or simple name.
pub open spec fn class_name_matches(p: Pattern, c: ClassInfoView) -> bool {
    pattern_matches(p, c.fqdn) || pattern_matches(p, c.simple_name)
}

/// The qualified name a name resolves to in the file at `path`, or the
/// name itself.
pub open spec fn resolved_or_same(r: TypeResolverView, name: Seq<char>, path: Seq<char>) -> Seq<char> {
    or_name(resolved_name(r, name, path), name)
}

pub open spec fn plain_class_results(p: Pattern, path: Seq<char>, c: ClassInfoView) -> Seq<QueryResultView> {
    opt_if(!c.is_interface && !c.is_enum && class_name_matches(p, c), class_result(path, c))
}

pub open spec fn type_results(p: Pattern, f: Option<AnnotationFilter>, path: Seq<char>, c: ClassInfoView) -> Seq<QueryResultView> {
    opt_if(passes_filter(c.annotations, f) && class_name_matches(p, c), class_result(path, c))
}

pub open spec fn enum_results(p: Pattern, path: Seq<char>, c: ClassInfoView) -> Seq<QueryResultView> {
    opt_if(c.is_enum && class_name_matches(p, c), class_result(path, c))
}

/// Whether a field matches: with a `name type` pattern text, by name and
/// type; otherwise by its resolved or written type.
pub open spec fn field_matches(r: TypeResolverView, p: Pattern, path: Seq<char>, fd: FieldInfoView) -> bool {
    let rt = resolved_or_same(r, fd.type_name_, path);
    match pattern_text(p) {
        Some(ps) => if ps.contains(' ') {
            name_type_matches(ps, fd.name, rt, fd.type_name_)
        } else {
            pattern_matches(p, rt) || pattern_matches(p, fd.type_name_)
        },
        None => pattern_matches(p, rt) || pattern_matches(p, fd.type_name_),
    }
}

pub open spec fn field_result(r: TypeResolverView, p: Pattern, f: Option<AnnotationFilter>, path: Seq<char>, fd: FieldInfoView) -> Seq<QueryResultView> {
    opt_if(
        passes_filter(fd.annotations, f) && field_matches(r, p, path, fd),
        qr(
            path,
            fd.position.line,
            fd.position.column,
            fd.name + ": "@ + fd.type_name_,
            Some(resolved_or_same(r, fd.type_name_, path)),
        ),
    )
}

pub open spec fn field_results(r: TypeResolverView, p: Pattern, f: Option<AnnotationFilter>, path: Seq<char>, c: ClassInfoView) -> Seq<QueryResultView> {
    flat(c.fields.map_values(|fd: FieldInfoView| field_result(r, p, f, path, fd)))
}

/// Whether a method matches: with a `name type` pattern text, by name and
/// return type; otherwise by `Class.method` (qualified or simple) or name.
pub open spec fn method_matches(r: TypeResolverView, p: Pattern, path: Seq<char>, c: ClassInfoView, m: MethodInfoView) -> bool {
    let fqdn = c.fqdn + "."@ + m.name;
    let scm = c.simple_name + "."@ + m.name;
    let rt = resolved_or_same(r, m.return_type, path);
    let by_name = pattern_matches(p, fqdn) || pattern_matches(p, scm) || pattern_matches(p, m.name);
    match pattern_text(p) {
        Some(ps) => if ps.contains(' ') {
            name_type_matches(ps, m.name, rt, m.return_type)
        } else {
            by_name
        },
        None => by_name,
    }
}

pub open spec fn method_result(r: TypeResolverView, p: Pattern, f: Option<AnnotationFilter>, path: Seq<char>, c: ClassInfoView, m: MethodInfoView) -> Seq<QueryResultView> {
    opt_if(
        passes_filter(m.annotations, f) && method_matches(r, p, path, c, m),
        qr(path, m.position.line, m.position.column, m.name, Some(c.fqdn + "."@ + m.name)),
    )
}

pub open spec fn method_results(r: TypeResolverView, p: Pattern, f: Option<AnnotationFilter>, path: Seq<char>, c: ClassInfoView) -> Seq<QueryResultView> {
    flat(c.methods.map_values(|m: MethodInfoView| method_result(r, p, f, path, c, m)))
}

pub open spec fn inheritance_results(r: TypeResolverView, p: Pattern, path: Seq<char>, c: ClassInfoView) -> Seq<QueryResultView> {
    match c.extends {
        Some(ps) => {
            let pf = resolved_or_same(r, ps, path);
            opt_if(
                pattern_matches(p, pf) || pattern_matches(p, ps),
                qr(path, c.position.line, c.position.column, c.simple_name + " extends "@ + ps, Some(pf)),
            )
        },
        None => Seq::empty(),
    }
}

pub open spec fn implements_result(r: TypeResolverView, p: Pattern, path: Seq<char>, c: ClassInfoView, i: Seq<char>) -> Seq<QueryResultView> {
    let f = resolved_or_same(r, i, path);
    opt_if(
        pattern_matches(p, f) || pattern_matches(p, i),
        qr(path, c.position.line, c.position.column, c.simple_name + " implements "@ + i, Some(f)),
    )
}

pub open spec fn implements_results(r: TypeResolverView, p: Pattern, path: Seq<char>, c: ClassInfoView) -> Seq<QueryResultView> {
    flat(c.implements.map_values(|i: Seq<char>| implements_result(r, p, path, c, i)))
}

pub open spec fn return_type_result(r: TypeResolverView, p: Pattern, path: Seq<char>, c: ClassInfoView, m: MethodInfoView) -> Seq<QueryResultView> {
    let rt = resolved_or_same(r, m.return_type, path);
    opt_if(
        pattern_matches(p, rt) || pattern_matches(p, m.return_type),
        qr(path, m.position.line, m.position.column, c.simple_name + "."@ + m.name, Some(rt)),
    )
}

pub open spec fn return_type_results(r: TypeResolverView, p: Pattern, path: Seq<char>, c: ClassInfoView) -> Seq<QueryResultView> {
    flat(c.methods.map_values(|m: MethodInfoView| return_type_result(r, p, path, c, m)))
}

/// The first field named `name` in a list of fields.
pub open spec fn first_field_named(fs: Seq<FieldInfoView>, name: Seq<char>) -> Option<FieldInfoView>
    decreases fs.len(),
{
    if fs.len() == 0 {
        None
    } else if fs[0].name == name {
        Some(fs[0])
    } else {
        first_field_named(fs.drop_first(), name)
    }
}

/// The first field named `name` in the first class (in order) that has one.
pub open spec fn field_named(classes: Seq<(Seq<char>, ClassInfoView)>, name: Seq<char>) -> Option<FieldInfoView>
    decreases classes.len(),
{
    if classes.len() == 0 {
        None
    } else {
        match first_field_named(classes[0].1.fields, name) {
            Some(f) => Some(f),
            None => field_named(classes.drop_first(), name),
        }
    }
}

/// The type of a call's receiver: the receiver resolved as a type name, or
/// else the (resolved) type of a field of the file with that name.
pub open spec fn receiver_type(r: TypeResolverView, path: Seq<char>, fi: FileInfoView, mc: MethodCallView) -> Option<Seq<char>> {
    match mc.receiver_type {
        None => None,
        Some(rn) => match resolved_name(r, rn, path) {
            Some(x) => Some(x),
            None => match field_named(fi.classes, rn) {
                Some(fd) => Some(resolved_or_same(r, fd.type_name_, path)),
                None => None,
            },
        },
    }
}

/// `Simple.method` for a qualified receiver type with a dot.
pub open spec fn simple_call_name(receiver: Seq<char>, name: Seq<char>) -> Option<Seq<char>> {
    match last_index_of(receiver, '.') {
        Some(k) => Some(receiver.skip(k + 1) + "."@ + name),
        None => None,
    }
}

pub open spec fn call_result(r: TypeResolverView, p: Pattern, path: Seq<char>, fi: FileInfoView, mc: MethodCallView) -> Seq<QueryResultView> {
    let recv = receiver_type(r, path, fi, mc);
    let name = mc.method_name;
    let full = match recv {
        Some(x) => Some(x + "."@ + name),
        None => None,
    };
    let simple = match recv {
        Some(x) => simple_call_name(x, name),
        None => None,
    };
    let m = pattern_matches(p, name) || (full matches Some(q) && pattern_matches(p, q)) || (simple matches Some(q) && pattern_matches(p, q));
    opt_if(m, qr(path, mc.position.line, mc.position.column, or_name(full, name), recv))
}

pub open spec fn call_results(r: TypeResolverView, p: Pattern, path: Seq<char>, fi: FileInfoView) -> Seq<QueryResultView> {
    flat(fi.method_calls.map_values(|mc: MethodCallView| call_result(r, p, path, fi, mc)))
}

pub open spec fn constructor_result(r: TypeResolverView, p: Pattern, path: Seq<char>, cc: ConstructorCallView) -> Seq<QueryResultView> {
    let rt = resolved_or_same(r, cc.type_name_, path);
    opt_if(
        pattern_matches(p, rt) || pattern_matches(p, cc.type_name_),
        qr(path, cc.position.line, cc.position.column, "new "@ + cc.type_name_, Some(rt)),
    )
}

pub open spec fn constructor_results(r: TypeResolverView, p: Pattern, path: Seq<char>, fi: FileInfoView) -> Seq<QueryResultView> {
    flat(fi.constructor_calls.map_values(|cc: ConstructorCallView| constructor_result(r, p, path, cc)))
}

/// An element value matches a required one: the required text compiles as
/// a regex that finds a match in it, or the texts are equal.
pub open spec fn value_matches_spec(actual: Seq<char>, expected: Seq<char>) -> bool {
    (regex_compiles(expected) && regex_finds(expected, actual)) || actual == expected
}

/// Whether an annotation passes a filter given to an annotation query.
pub open spec fn annotation_query_filter(a: AnnotationInfoView, f: Option<AnnotationFilter>) -> bool {
    match f {
        None => true,
        Some(f) => {
            let afq = or_name(a.fqdn, a.name);
            &&& match filter_pattern(f) {
                None => true,
                Some(ps) => pattern_ok(ps) && (text_pattern_matches(ps, afq) || text_pattern_matches(ps, a.name)),
            }
            &&& forall|k: int|
                0 <= k < filter_elements(f).len() ==> match lookup(a.elements, #[trigger] filter_elements(f)[k].0) {
                    Some(actual) => value_matches_spec(actual, filter_elements(f)[k].1),
                    None => false,
                }
        },
    }
}

/// Whether the pattern matches an annotation: its qualified (or plain)
/// name, its name, or, when it has no qualified name, its name in one of
/// the file's wildcard-imported packages.
pub open spec fn annotation_pattern_matches(p: Pattern, fi: FileInfoView, a: AnnotationInfoView) -> bool {
    pattern_matches(p, or_name(a.fqdn, a.name)) || pattern_matches(p, a.name) || (a.fqdn is None && exists|i: int|
        0 <= i < fi.wildcard_imports.len() && pattern_matches(p, #[trigger] fi.wildcard_imports[i] + "."@ + a.name))
}

pub open spec fn annotation_result(p: Pattern, f: Option<AnnotationFilter>, path: Seq<char>, fi: FileInfoView, a: AnnotationInfoView, symbol: Seq<char>) -> Seq<QueryResultView> {
    opt_if(
        annotation_pattern_matches(p, fi, a) && annotation_query_filter(a, f),
        qr(path, a.position.line, a.position.column, symbol, Some(or_name(a.fqdn, a.name))),
    )
}

pub open spec fn annotation_results_of(p: Pattern, f: Option<AnnotationFilter>, path: Seq<char>, fi: FileInfoView, anns: Seq<AnnotationInfoView>, suffix: Seq<char>) -> Seq<QueryResultView> {
    flat(anns.map_values(|a: AnnotationInfoView| annotation_result(p, f, path, fi, a, "@"@ + a.name + suffix)))
}

pub open spec fn class_annotation_results(p: Pattern, f: Option<AnnotationFilter>, path: Seq<char>, fi: FileInfoView, c: ClassInfoView) -> Seq<QueryResultView> {
    annotation_results_of(p, f, path, fi, c.annotations, " on class "@ + c.simple_name) + flat(
        c.methods.map_values(
            |m: MethodInfoView| annotation_results_of(p, f, path, fi, m.annotations, " on "@ + c.simple_name + "."@ + m.name),
        ),
    ) + flat(
        c.fields.map_values(
            |fd: FieldInfoView| annotation_results_of(p, f, path, fi, fd.annotations, " on "@ + c.simple_name + "."@ + fd.name),
        ),
    )
}

/// The symbol of a variable result: type and name, with the enclosing
/// `Class.method` or method when known.
pub open spec fn variable_symbol(v: VariableDeclarationView) -> Seq<char> {
    let base = v.type_name_ + " "@ + v.variable_name;
    match v.method_context {
        Some(m) => match v.class_context {
            Some(c) => base + " in "@ + c + "."@ + m,
            None => base + " in "@ + m,
        },
        None => base,
    }
}

pub open spec fn variable_result(r: TypeResolverView, p: Pattern, path: Seq<char>, v: VariableDeclarationView) -> Seq<QueryResultView> {
    let rt = resolved_or_same(r, v.type_name_, path);
    opt_if(
        pattern_matches(p, rt) || pattern_matches(p, v.type_name_) || pattern_matches(p, v.variable_name),
        qr(path, v.position.line, v.position.column, variable_symbol(v), Some(rt)),
    )
}

pub open spec fn variable_results(r: TypeResolverView, p: Pattern, path: Seq<char>, fi: FileInfoView) -> Seq<QueryResultView> {
    flat(fi.variables.map_values(|v: VariableDeclarationView| variable_result(r, p, path, v)))
}

/// The results one class gives for a location type that looks at classes.
pub open spec fn class_level(
    r: TypeResolverView,
    loc: LocationType,
    p: Pattern,
    f: Option<AnnotationFilter>,
    path: Seq<char>,
    fi: FileInfoView,
    c: ClassInfoView,
) -> Seq<QueryResultView> {
    match loc {
        LocationType::Class => plain_class_results(p, path, c),
        LocationType::Type => type_results(p, f, path, c),
        LocationType::Field => field_results(r, p, f, path, c),
        LocationType::Method => method_results(r, p, f, path, c),
        LocationType::Enum => enum_results(p, path, c),
        LocationType::Inheritance => inheritance_results(r, p, path, c),
        LocationType::ImplementsType => implements_results(r, p, path, c),
        LocationType::Annotation => class_annotation_results(p, f, path, fi, c),
        LocationType::ReturnType => return_type_results(r, p, path, c),
        _ => Seq::empty(),
    }
}

/// The results one file gives for a location type.
pub open spec fn location_results(
    r: TypeResolverView,
    loc: LocationType,
    p: Pattern,
    f: Option<AnnotationFilter>,
    path: Seq<char>,
    fi: FileInfoView,
) -> Seq<QueryResultView> {
    match loc {
        LocationType::Import => import_results(p, path, fi),
        LocationType::Package => package_results(p, path, fi),
        LocationType::MethodCall => call_results(r, p, path, fi),
        LocationType::ConstructorCall => constructor_results(r, p, path, fi),
        LocationType::Variable => variable_results(r, p, path, fi),
        _ => flat(fi.classes.map_values(|e: (Seq<char>, ClassInfoView)| class_level(r, loc, p, f, path, fi, e.1))),
    }
}

/// The results of all files for a location type, files in order.
pub open spec fn query_results(r: TypeResolverView, loc: LocationType, p: Pattern, f: Option<AnnotationFilter>) -> Seq<QueryResultView> {
    flat(r.file_infos.map_values(|e: (Seq<char>, FileInfoView)| location_results(r, loc, p, f, e.0, e.1)))
}

/// The results of a query: those of every file for its location type,
/// then the filters where given.
pub open spec fn referenced_results(r: TypeResolverView, q: ReferencedQuery) -> Seq<QueryResultView> {
    match q.filters {
        Some(f) => filtered(query_results(r, q.location, q.pattern, q.annotated), f.exclude_tests),
        None => query_results(r, q.location, q.pattern, q.annotated),
    }
}

/// Whether a result is in test code: its path holds `/test/` or
/// `Test.java`, or its symbol holds `Test`.
pub open spec fn is_test_result(q: QueryResultView) -> bool {
    contains_seq(q.file_path, "/test/"@) || contains_seq(q.file_path, "Test.java"@) || contains_seq(q.symbol, "Test"@)
}

/// The results kept by the filters: test results are dropped when asked.
pub open spec fn filtered(results: Seq<QueryResultView>, exclude_tests: bool) -> Seq<QueryResultView> {
    flat(results.map_values(|q: QueryResultView| opt_if(!(exclude_tests && is_test_result(q)), q)))
}

proof fn lemma_filtered_push(rs: Seq<QueryResultView>, b: bool)
    requires
        rs.len() > 0,
    ensures
        filtered(rs, b) == filtered(rs.drop_last(), b) + opt_if(!(b && is_test_result(rs.last())), rs.last()),
{
    let m = rs.map_values(|q: QueryResultView| opt_if(!(b && is_test_result(q)), q));
    assert(m.drop_last() =~= rs.drop_last().map_values(|q: QueryResultView| opt_if(!(b && is_test_result(q)), q)));
}

/// With `exclude_tests`, no result in test code is kept; without it, every
/// result is kept, in order.
pub proof fn law_exclude_tests(results: Seq<QueryResultView>)
    ensures
        forall|i: int|
            0 <= i < filtered(results, true).len() ==> !is_test_result(#[trigger] filtered(results, true)[i]),
        filtered(results, false) == results,
    decreases results.len(),
{
    if results.len() > 0 {
        let prev = results.drop_last();
        law_exclude_tests(prev);
        lemma_filtered_push(results, true);
        lemma_filtered_push(results, false);
        assert(results =~= prev.push(results.last()));
        assert(filtered(results, false) =~= results);
    } else {
        assert(filtered(results, false) =~= results);
    }
}

proof fn lemma_flat_take<A>(s: Seq<Seq<A>>, i: int)
    requires
        0 <= i < s.len(),
    ensures
        flat(s.take(i + 1)) == flat(s.take(i)) + s[i],
{
    assert(s.take(i + 1).drop_last() =~= s.take(i));
}

proof fn lemma_flat_all<A>(s: Seq<Seq<A>>)
    ensures
        flat(s.take(s.len() as int)) == flat(s),
{
    assert(s.take(s.len() as int) =~= s);
}

// ---------------------------------------------------------------------------
// The query engine
// ---------------------------------------------------------------------------

/// The filter behind an optional reference.
pub open spec fn filter_of(o: Option<&AnnotationFilter>) -> Option<AnnotationFilter> {
    match o {
        Some(x) => Some(*x),
        None => None,
    }
}

fn push_if(out: &mut Vec<QueryResult>, cond: bool, q: QueryResult)
    ensures
        result_views(final(out)@) == result_views(old(out)@) + opt_if(cond, q@),
{
    let ghost before = out@;
    if cond {
        out.push(q);
        assert(result_views(out@) =~= result_views(before) + seq![q@]);
    } else {
        assert(result_views(out@) =~= result_views(before) + Seq::<QueryResultView>::empty());
    }
}

/// Answers queries over the files analysed by a type resolver.
#[derive(Debug)]
pub struct QueryEngine {
    type_resolver: TypeResolver,
    pattern_cache: PatternCache,
}

impl QueryEngine {
    /// The resolver queried.
    pub closed spec fn resolver(&self) -> TypeResolverView {
        self.type_resolver@
    }

    /// An engine over a resolver, with an empty pattern cache.
    pub fn new(type_resolver: TypeResolver) -> (e: Self)
        ensures
            e.resolver() == type_resolver@,
            e.cache_texts().len() == 0,
    {
        QueryEngine { type_resolver, pattern_cache: PatternCache::new() }
    }

    /// The texts whose patterns the engine keeps.
    pub closed spec fn cache_texts(&self) -> Seq<Seq<char>> {
        self.pattern_cache.texts()
    }

    /// Gives back the resolver the engine queried.
    pub fn into_resolver(self) -> (r: TypeResolver)
        ensures
            r@ == self.resolver(),
    {
        self.type_resolver
    }

    /// The number of patterns kept.
    pub fn pattern_cache_size(&self) -> (n: usize)
        ensures
            n == self.cache_texts().len(),
    {
        self.pattern_cache.size()
    }

    /// Forgets the kept patterns.
    pub fn clear_pattern_cache(&mut self)
        ensures
            final(self).cache_texts().len() == 0,
            final(self).resolver() == old(self).resolver(),
    {
        self.pattern_cache.clear();
    }

    /// Whether an annotation satisfies a filter.
    fn annotation_satisfies(a: &AnnotationInfo, filter: &AnnotationFilter) -> (b: bool)
        ensures
            b == annotation_satisfies(a@, filter_pattern(*filter), filter_elements(*filter)),
    {
        match &filter.pattern {
            Some(ps) => match Pattern::from_string(ps.as_str()) {
                Err(_) => {
                    return false;
                },
                Ok(pat) => {
                    proof {
                        lemma_compiled_matches(pat, ps@, a.name@);
                    }
                    let m = match &a.fqdn {
                        Some(q) => {
                            proof {
                                lemma_compiled_matches(pat, ps@, q@);
                            }
                            pat.matches(q.as_str()) || pat.matches(a.name.as_str())
                        },
                        None => pat.matches(a.name.as_str()),
                    };
                    if !m {
                        return false;
                    }
                },
            },
            None => {},
        }
        let n = filter.elements.len();
        let ghost req = filter_elements(*filter);
        for k in 0..n
            invariant
                n == filter.elements@.len(),
                req == filter_elements(*filter),
                forall|j: int|
                    0 <= j < k ==> match lookup(a@.elements, #[trigger] req[j].0) {
                        Some(actual) => value_satisfies(actual, req[j].1),
                        None => false,
                    },
        {
            let (name, required) = filter.elements.entry(k);
            assert(req[k as int] == (name@, required@));
            let found = a.elements.get(name.as_str());
            proof {
                lemma_lookup_view(a.elements@, name@);
            }
            match found {
                Some(actual) => {
                    let ok = match Pattern::from_string(required.as_str()) {
                        Ok(vp) => {
                            proof {
                                lemma_compiled_matches(vp, required@, actual@);
                            }
                            vp.matches(actual.as_str())
                        },
                        Err(_) => str_eq(actual.as_str(), required.as_str()),
                    };
                    if !ok {
                        assert(!value_satisfies(actual@, req[k as int].1));
                        assert(!elements_satisfied(a@, req));
                        return false;
                    }
                },
                None => {
                    assert(lookup(a@.elements, req[k as int].0) is None);
                    assert(!elements_satisfied(a@, req));
                    return false;
                },
            }
        }
        true
    }

    /// Whether some annotation satisfies the filter: its name or qualified
    /// name matches the filter's pattern and it has the required elements.
    pub fn matches_annotation_filter(annotations: &Vec<AnnotationInfo>, filter: &AnnotationFilter) -> (b: bool)
        ensures
            b == filter_matches(annotation_views(annotations@), filter_pattern(*filter), filter_elements(*filter)),
    {
        let ghost anns = annotation_views(annotations@);
        let n = annotations.len();
        for i in 0..n
            invariant
                n == annotations@.len(),
                anns == annotation_views(annotations@),
                forall|j: int| 0 <= j < i ==> !annotation_satisfies(#[trigger] anns[j], filter_pattern(*filter), filter_elements(*filter)),
        {
            if Self::annotation_satisfies(&annotations[i], filter) {
                assert(annotation_satisfies(anns[i as int], filter_pattern(*filter), filter_elements(*filter)));
                return true;
            }
        }
        false
    }

    fn passes(annotations: &Vec<AnnotationInfo>, filter: Option<&AnnotationFilter>) -> (b: bool)
        ensures
            b == passes_filter(annotation_views(annotations@), filter_of(filter)),
    {
        match filter {
            None => true,
            Some(f) => Self::matches_annotation_filter(annotations, f),
        }
    }

    fn resolved_or_same(&self, name: &str, path: &str) -> (r: String)
        ensures
            r@ == resolved_or_same(self.resolver(), name@, path@),
    {
        match self.type_resolver.resolve_type_name(name, path) {
            Some(x) => x,
            None => own(name),
        }
    }
}

fn first_space(s: &Vec<char>) -> (r: Option<usize>)
    ensures
        match r {
            Some(k) => first_index_of(s@, ' ') == Some(k as int) && k < s@.len(),
            None => first_index_of(s@, ' ') is None,
        },
{
    let n = s.len();
    for i in 0..n
        invariant
            n == s@.len(),
            forall|j: int| 0 <= j < i ==> s@[j] != ' ',
    {
        if s[i] == ' ' {
            proof {
                assert(s@.contains(' '));
                let w = choose|w: int| 0 <= w < s@.len() && s@[w] == ' ' && forall|j: int| 0 <= j < w ==> s@[j] != ' ';
                if w < i {
                    assert(s@[w] != ' ');
                } else if w > i {
                    assert(s@[i as int] != ' ');
                }
            }
            return Some(i);
        }
    }
    None
}

/// Whether a name and a type satisfy a `name type` pattern text.
fn name_type_matches_exec(ps: &str, name: &str, resolved: &str, written: &str) -> (b: bool)
    requires
        ps@.contains(' '),
    ensures
        b == name_type_matches(ps@, name@, resolved@, written@),
{
    let cs = chars_of(ps);
    let k = match first_space(&cs) {
        Some(k) => k,
        None => {
            return false;
        },
    };
    let n = cs.len();
    let np = string_of_range(cs.as_slice(), 0, k);
    let tp = string_of_range(cs.as_slice(), k + 1, n);
    assert(np@ =~= ps@.take(k as int));
    assert(tp@ =~= ps@.skip(k + 1));
    let name_ok = if str_eq(np.as_str(), "*") || str_eq(np.as_str(), name) {
        true
    } else {
        match Pattern::from_string(np.as_str()) {
            Ok(q) => {
                proof {
                    lemma_compiled_matches(q, np@, name@);
                }
                q.matches(name)
            },
            Err(_) => false,
        }
    };
    let type_ok = match Pattern::from_string(tp.as_str()) {
        Ok(q) => {
            proof {
                lemma_compiled_matches(q, tp@, resolved@);
                lemma_compiled_matches(q, tp@, written@);
            }
            q.matches(resolved) || q.matches(written)
        },
        Err(_) => false,
    };
    name_ok && type_ok
}

/// Whether an element value matches a required one: as a regex when it
/// compiles and finds a match, else by equality.
pub fn value_matches(actual: &str, expected: &str) -> (b: bool)
    ensures
        b == value_matches_spec(actual@, expected@),
{
    match CompiledRegex::new(expected) {
        Some(re) => {
            if re.is_match(actual) {
                return true;
            }
        },
        None => {},
    }
    str_eq(actual, expected)
}

fn class_qr(path: &String, c: &ClassInfo) -> (q: QueryResult)
    ensures
        q@ == class_result(path@, c@),
{
    QueryResult {
        file_path: path.clone(),
        line_number: c.position.line,
        column: c.position.column,
        symbol: c.simple_name.clone(),
        fqdn: Some(c.fqdn.clone()),
    }
}

impl QueryEngine {
    fn field_result(&self, pattern: &Pattern, filter: Option<&AnnotationFilter>, path: &String, fd: &FieldInfo, out: &mut Vec<QueryResult>)
        ensures
            result_views(final(out)@) == result_views(old(out)@) + field_result(self.resolver(), *pattern, filter_of(filter), path@, fd@),
    {
        let rt = self.resolved_or_same(fd.type_name_.as_str(), path.as_str());
        let pass = Self::passes(&fd.annotations, filter);
        let m = match pattern.as_string() {
            Some(ps) => {
                let pc = chars_of(ps);
                if contains_char(pc.as_slice(), ' ') {
                    name_type_matches_exec(ps, fd.name.as_str(), rt.as_str(), fd.type_name_.as_str())
                } else {
                    pattern.matches(rt.as_str()) || pattern.matches(fd.type_name_.as_str())
                }
            },
            None => pattern.matches(rt.as_str()) || pattern.matches(fd.type_name_.as_str()),
        };
        let symbol = concat3(fd.name.as_str(), ": ", fd.type_name_.as_str());
        let q = QueryResult {
            file_path: path.clone(),
            line_number: fd.position.line,
            column: fd.position.column,
            symbol,
            fqdn: Some(rt),
        };
        push_if(out, pass && m, q);
    }

    fn method_result(&self, pattern: &Pattern, filter: Option<&AnnotationFilter>, path: &String, c: &ClassInfo, m: &MethodInfo, out: &mut Vec<QueryResult>)
        ensures
            result_views(final(out)@) == result_views(old(out)@) + method_result(self.resolver(), *pattern, filter_of(filter), path@, c@, m@),
    {
        let fqdn = concat3(c.fqdn.as_str(), ".", m.name.as_str());
        let scm = concat3(c.simple_name.as_str(), ".", m.name.as_str());
        let rt = self.resolved_or_same(m.return_type.as_str(), path.as_str());
        let pass = Self::passes(&m.annotations, filter);
        let by_name = pattern.matches(fqdn.as_str()) || pattern.matches(scm.as_str()) || pattern.matches(m.name.as_str());
        let matched = match pattern.as_string() {
            Some(ps) => {
                let pc = chars_of(ps);
                if contains_char(pc.as_slice(), ' ') {
                    name_type_matches_exec(ps, m.name.as_str(), rt.as_str(), m.return_type.as_str())
                } else {
                    by_name
                }
            },
            None => by_name,
        };
        let q = QueryResult {
            file_path: path.clone(),
            line_number: m.position.line,
            column: m.position.column,
            symbol: m.name.clone(),
            fqdn: Some(fqdn),
        };
        push_if(out, pass && matched, q);
    }

    fn return_type_result(&self, pattern: &Pattern, path: &String, c: &ClassInfo, m: &MethodInfo, out: &mut Vec<QueryResult>)
        ensures
            result_views(final(out)@) == result_views(old(out)@) + return_type_result(self.resolver(), *pattern, path@, c@, m@),
    {
        let rt = self.resolved_or_same(m.return_type.as_str(), path.as_str());
        let matched = pattern.matches(rt.as_str()) || pattern.matches(m.return_type.as_str());
        let q = QueryResult {
            file_path: path.clone(),
            line_number: m.position.line,
            column: m.position.column,
            symbol: concat3(c.simple_name.as_str(), ".", m.name.as_str()),
            fqdn: Some(rt),
        };
        push_if(out, matched, q);
    }

    fn implements_result(&self, pattern: &Pattern, path: &String, c: &ClassInfo, i: &String, out: &mut Vec<QueryResult>)
        ensures
            result_views(final(out)@) == result_views(old(out)@) + implements_result(self.resolver(), *pattern, path@, c@, i@),
    {
        let f = self.resolved_or_same(i.as_str(), path.as_str());
        let matched = pattern.matches(f.as_str()) || pattern.matches(i.as_str());
        let q = QueryResult {
            file_path: path.clone(),
            line_number: c.position.line,
            column: c.position.column,
            symbol: concat3(c.simple_name.as_str(), " implements ", i.as_str()),
            fqdn: Some(f),
        };
        push_if(out, matched, q);
    }

    fn annotation_filter_ok(a: &AnnotationInfo, afq: &String, filter: Option<&AnnotationFilter>) -> (b: bool)
        requires
            afq@ == or_name(a@.fqdn, a@.name),
        ensures
            b == annotation_query_filter(a@, filter_of(filter)),
    {
        let f = match filter {
            None => {
                return true;
            },
            Some(f) => f,
        };
        match &f.pattern {
            Some(ps) => match Pattern::from_string(ps.as_str()) {
                Err(_) => {
                    return false;
                },
                Ok(fp) => {
                    proof {
                        lemma_compiled_matches(fp, ps@, afq@);
                        lemma_compiled_matches(fp, ps@, a.name@);
                    }
                    if !fp.matches(afq.as_str()) && !fp.matches(a.name.as_str()) {
                        return false;
                    }
                },
            },
            None => {},
        }
        let n = f.elements.len();
        let ghost req = filter_elements(*f);
        for k in 0..n
            invariant
                n == f.elements@.len(),
                req == filter_elements(*f),
                filter_of(filter) == Some(*f),
                forall|j: int|
                    0 <= j < k ==> match lookup(a@.elements, #[trigger] req[j].0) {
                        Some(actual) => value_matches_spec(actual, req[j].1),
                        None => false,
                    },
        {
            let (name, required) = f.elements.entry(k);
            assert(req[k as int] == (name@, required@));
            let found = a.elements.get(name.as_str());
            proof {
                lemma_lookup_view(a.elements@, name@);
            }
            match found {
                Some(actual) => {
                    if !value_matches(actual.as_str(), required.as_str()) {
                        assert(!value_matches_spec(actual@, req[k as int].1));
                        assert(!annotation_query_filter(a@, filter_of(filter)));
                        return false;
                    }
                },
                None => {
                    assert(lookup(a@.elements, req[k as int].0) is None);
                    assert(!annotation_query_filter(a@, filter_of(filter)));
                    return false;
                },
            }
        }
        true
    }

    fn annotation_result(&self, pattern: &Pattern, filter: Option<&AnnotationFilter>, path: &String, fi: &FileInfo, a: &AnnotationInfo, symbol: String, out: &mut Vec<QueryResult>)
        ensures
            result_views(final(out)@) == result_views(old(out)@) + annotation_result(*pattern, filter_of(filter), path@, fi@, a@, symbol@),
    {
        let afq = match &a.fqdn {
            Some(q) => q.clone(),
            None => a.name.clone(),
        };
        let mut matched = pattern.matches(afq.as_str()) || pattern.matches(a.name.as_str());
        if !matched && a.fqdn.is_none() {
            let n = fi.wildcard_imports.len();
            let ghost ws = string_views(fi.wildcard_imports@);
            for i in 0..n
                invariant
                    n == fi.wildcard_imports@.len(),
                    ws == string_views(fi.wildcard_imports@),
                    ws == fi@.wildcard_imports,
                    !matched ==> forall|j: int| 0 <= j < i ==> !pattern_matches(*pattern, #[trigger] ws[j] + "."@ + a@.name),
                    matched ==> exists|j: int| 0 <= j < ws.len() && pattern_matches(*pattern, #[trigger] ws[j] + "."@ + a@.name),
            {
                if !matched {
                    let candidate = concat3(fi.wildcard_imports[i].as_str(), ".", a.name.as_str());
                    if pattern.matches(candidate.as_str()) {
                        assert(pattern_matches(*pattern, ws[i as int] + "."@ + a@.name));
                        matched = true;
                    }
                }
            }
        }
        let ok = matched && Self::annotation_filter_ok(a, &afq, filter);
        let q = QueryResult {
            file_path: path.clone(),
            line_number: a.position.line,
            column: a.position.column,
            symbol,
            fqdn: Some(afq),
        };
        push_if(out, ok, q);
    }

    fn annotations_results(&self, pattern: &Pattern, filter: Option<&AnnotationFilter>, path: &String, fi: &FileInfo, anns: &Vec<AnnotationInfo>, suffix: &String, out: &mut Vec<QueryResult>)
        ensures
            result_views(final(out)@) == result_views(old(out)@) + annotation_results_of(*pattern, filter_of(filter), path@, fi@, annotation_views(anns@), suffix@),
    {
        let ghost start = result_views(out@);
        let ghost lists = annotation_views(anns@).map_values(|a: AnnotationInfoView| annotation_result(*pattern, filter_of(filter), path@, fi@, a, "@"@ + a.name + suffix@));
        let n = anns.len();
        assert(start + flat(lists.take(0)) =~= start);
        for k in 0..n
            invariant
                n == anns@.len(),
                lists == annotation_views(anns@).map_values(|a: AnnotationInfoView| annotation_result(*pattern, filter_of(filter), path@, fi@, a, "@"@ + a.name + suffix@)),
                result_views(out@) == start + flat(lists.take(k as int)),
        {
            let a = &anns[k];
            let at = concat2("@", a.name.as_str());
            let symbol = concat2(at.as_str(), suffix.as_str());
            self.annotation_result(pattern, filter, path, fi, a, symbol, out);
            proof {
                lemma_flat_take(lists, k as int);
            }
        }
        proof {
            lemma_flat_all(lists);
        }
    }
}

impl QueryEngine {
    /// The results one class gives for a location type that looks at
    /// classes.
    fn class_results(&self, loc: LocationType, pattern: &Pattern, filter: Option<&AnnotationFilter>, path: &String, fi: &FileInfo, c: &ClassInfo, out: &mut Vec<QueryResult>)
        ensures
            result_views(final(out)@) == result_views(old(out)@) + class_level(self.resolver(), loc, *pattern, filter_of(filter), path@, fi@, c@),
    {
        let ghost start = result_views(out@);
        match loc {
            LocationType::Class => {
                let cond = !c.is_interface && !c.is_enum && (pattern.matches(c.fqdn.as_str()) || pattern.matches(c.simple_name.as_str()));
                push_if(out, cond, class_qr(path, c));
            },
            LocationType::Type => {
                let cond = Self::passes(&c.annotations, filter) && (pattern.matches(c.fqdn.as_str()) || pattern.matches(c.simple_name.as_str()));
                push_if(out, cond, class_qr(path, c));
            },
            LocationType::Enum => {
                let cond = c.is_enum && (pattern.matches(c.fqdn.as_str()) || pattern.matches(c.simple_name.as_str()));
                push_if(out, cond, class_qr(path, c));
            },
            LocationType::Inheritance => {
                match &c.extends {
                    Some(ps) => {
                        let pf = self.resolved_or_same(ps.as_str(), path.as_str());
                        let cond = pattern.matches(pf.as_str()) || pattern.matches(ps.as_str());
                        let q = QueryResult {
                            file_path: path.clone(),
                            line_number: c.position.line,
                            column: c.position.column,
                            symbol: concat3(c.simple_name.as_str(), " extends ", ps.as_str()),
                            fqdn: Some(pf),
                        };
                        push_if(out, cond, q);
                    },
                    None => {
                        assert(result_views(out@) =~= start + Seq::<QueryResultView>::empty());
                    },
                }
            },
            LocationType::Field => {
                let ghost lists = c@.fields.map_values(|fd: FieldInfoView| field_result(self.resolver(), *pattern, filter_of(filter), path@, fd));
                let n = c.fields.len();
                assert(start + flat(lists.take(0)) =~= start);
                for k in 0..n
                    invariant
                        n == c.fields@.len(),
                        lists == c@.fields.map_values(|fd: FieldInfoView| field_result(self.resolver(), *pattern, filter_of(filter), path@, fd)),
                        result_views(out@) == start + flat(lists.take(k as int)),
                {
                    self.field_result(pattern, filter, path, &c.fields[k], out);
                    proof {
                        lemma_flat_take(lists, k as int);
                    }
                }
                proof {
                    lemma_flat_all(lists);
                }
            },
            LocationType::Method => {
                let ghost lists = c@.methods.map_values(|m: MethodInfoView| method_result(self.resolver(), *pattern, filter_of(filter), path@, c@, m));
                let n = c.methods.len();
                assert(start + flat(lists.take(0)) =~= start);
                for k in 0..n
                    invariant
                        n == c.methods@.len(),
                        lists == c@.methods.map_values(|m: MethodInfoView| method_result(self.resolver(), *pattern, filter_of(filter), path@, c@, m)),
                        result_views(out@) == start + flat(lists.take(k as int)),
                {
                    self.method_result(pattern, filter, path, c, &c.methods[k], out);
                    proof {
                        lemma_flat_take(lists, k as int);
                    }
                }
                proof {
                    lemma_flat_all(lists);
                }
            },
            LocationType::ReturnType => {
                let ghost lists = c@.methods.map_values(|m: MethodInfoView| return_type_result(self.resolver(), *pattern, path@, c@, m));
                let n = c.methods.len();
                assert(start + flat(lists.take(0)) =~= start);
                for k in 0..n
                    invariant
                        n == c.methods@.len(),
                        lists == c@.methods.map_values(|m: MethodInfoView| return_type_result(self.resolver(), *pattern, path@, c@, m)),
                        result_views(out@) == start + flat(lists.take(k as int)),
                {
                    self.return_type_result(pattern, path, c, &c.methods[k], out);
                    proof {
                        lemma_flat_take(lists, k as int);
                    }
                }
                proof {
                    lemma_flat_all(lists);
                }
            },
            LocationType::ImplementsType => {
                let ghost lists = c@.implements.map_values(|i: Seq<char>| implements_result(self.resolver(), *pattern, path@, c@, i));
                let n = c.implements.len();
                assert(start + flat(lists.take(0)) =~= start);
                for k in 0..n
                    invariant
                        n == c.implements@.len(),
                        lists == c@.implements.map_values(|i: Seq<char>| implements_result(self.resolver(), *pattern, path@, c@, i)),
                        result_views(out@) == start + flat(lists.take(k as int)),
                {
                    self.implements_result(pattern, path, c, &c.implements[k], out);
                    proof {
                        lemma_flat_take(lists, k as int);
                    }
                }
                proof {
                    lemma_flat_all(lists);
                }
            },
            LocationType::Annotation => {
                let suffix = concat2(" on class ", c.simple_name.as_str());
                self.annotations_results(pattern, filter, path, fi, &c.annotations, &suffix, out);
                let ghost mid = result_views(out@);
                let ghost mlists = c@.methods.map_values(|m: MethodInfoView| annotation_results_of(*pattern, filter_of(filter), path@, fi@, m.annotations, " on "@ + c@.simple_name + "."@ + m.name));
                let n = c.methods.len();
                assert(mid + flat(mlists.take(0)) =~= mid);
                for k in 0..n
                    invariant
                        n == c.methods@.len(),
                        mlists == c@.methods.map_values(|m: MethodInfoView| annotation_results_of(*pattern, filter_of(filter), path@, fi@, m.annotations, " on "@ + c@.simple_name + "."@ + m.name)),
                        result_views(out@) == mid + flat(mlists.take(k as int)),
                {
                    let m = &c.methods[k];
                    let head = concat3(" on ", c.simple_name.as_str(), ".");
                    let suffix = concat2(head.as_str(), m.name.as_str());
                    self.annotations_results(pattern, filter, path, fi, &m.annotations, &suffix, out);
                    proof {
                        lemma_flat_take(mlists, k as int);
                    }
                }
                proof {
                    lemma_flat_all(mlists);
                }
                let ghost mid2 = result_views(out@);
                let ghost flists = c@.fields.map_values(|fd: FieldInfoView| annotation_results_of(*pattern, filter_of(filter), path@, fi@, fd.annotations, " on "@ + c@.simple_name + "."@ + fd.name));
                let nf = c.fields.len();
                assert(mid2 + flat(flists.take(0)) =~= mid2);
                for k in 0..nf
                    invariant
                        nf == c.fields@.len(),
                        flists == c@.fields.map_values(|fd: FieldInfoView| annotation_results_of(*pattern, filter_of(filter), path@, fi@, fd.annotations, " on "@ + c@.simple_name + "."@ + fd.name)),
                        result_views(out@) == mid2 + flat(flists.take(k as int)),
                {
                    let fd = &c.fields[k];
                    let head = concat3(" on ", c.simple_name.as_str(), ".");
                    let suffix = concat2(head.as_str(), fd.name.as_str());
                    self.annotations_results(pattern, filter, path, fi, &fd.annotations, &suffix, out);
                    proof {
                        lemma_flat_take(flists, k as int);
                    }
                }
                proof {
                    lemma_flat_all(flists);
                }
                assert(result_views(out@) =~= start + class_level(self.resolver(), loc, *pattern, filter_of(filter), path@, fi@, c@));
            },
            _ => {
                assert(result_views(out@) =~= start + Seq::<QueryResultView>::empty());
            },
        }
    }
}

fn string_contains(list: &Vec<String>, s: &str) -> (b: bool)
    ensures
        b == string_views(list@).contains(s@),
{
    let n = list.len();
    for i in 0..n
        invariant
            n == list@.len(),
            forall|j: int| 0 <= j < i ==> string_views(list@)[j] != s@,
    {
        if str_eq(list[i].as_str(), s) {
            assert(string_views(list@)[i as int] == s@);
            return true;
        }
    }
    false
}

/// The package part of a qualified name (before its last dot), if any.
fn package_part(name: &str) -> (r: Option<String>)
    ensures
        match last_index_of(name@, '.') {
            Some(k) => r matches Some(p) && p@ == name@.take(k),
            None => r is None,
        },
{
    let cs = chars_of(name);
    match last_index_of_char(cs.as_slice(), '.') {
        Some(k) => {
            let p = string_of_range(cs.as_slice(), 0, k);
            assert(p@ =~= name@.take(k as int));
            Some(p)
        },
        None => None,
    }
}

impl QueryEngine {
    fn import_results_exec(&self, pattern: &Pattern, path: &String, fi: &FileInfo, out: &mut Vec<QueryResult>)
        ensures
            result_views(final(out)@) == result_views(old(out)@) + import_results(*pattern, path@, fi@),
    {
        let ghost start = result_views(out@);
        let ghost elists = fi@.explicit_imports.map_values(
            |e: (Seq<char>, Seq<char>)|
                opt_if(pattern_matches(*pattern, e.1) || pattern_matches(*pattern, e.0), qr(path@, 0, 0, e.0, Some(e.1))),
        );
        let n = fi.explicit_imports.len();
        assert(start + flat(elists.take(0)) =~= start);
        for k in 0..n
            invariant
                n == fi.explicit_imports@.len(),
                elists == fi@.explicit_imports.map_values(
                    |e: (Seq<char>, Seq<char>)|
                        opt_if(pattern_matches(*pattern, e.1) || pattern_matches(*pattern, e.0), qr(path@, 0, 0, e.0, Some(e.1))),
                ),
                result_views(out@) == start + flat(elists.take(k as int)),
        {
            let (simple, fqdn) = fi.explicit_imports.entry(k);
            assert(fi@.explicit_imports[k as int] == (simple@, fqdn@));
            let cond = pattern.matches(fqdn.as_str()) || pattern.matches(simple.as_str());
            let q = QueryResult { file_path: path.clone(), line_number: 0, column: 0, symbol: simple.clone(), fqdn: Some(fqdn.clone()) };
            push_if(out, cond, q);
            proof {
                lemma_flat_take(elists, k as int);
            }
        }
        proof {
            lemma_flat_all(elists);
        }
        let ghost mid = result_views(out@);
        let ghost wlists = fi@.wildcard_imports.map_values(
            |w: Seq<char>| opt_if(pattern_matches(*pattern, w), qr(path@, 0, 0, w + ".*"@, Some(w))),
        );
        let m = fi.wildcard_imports.len();
        assert(mid + flat(wlists.take(0)) =~= mid);
        for k in 0..m
            invariant
                m == fi.wildcard_imports@.len(),
                wlists == fi@.wildcard_imports.map_values(
                    |w: Seq<char>| opt_if(pattern_matches(*pattern, w), qr(path@, 0, 0, w + ".*"@, Some(w))),
                ),
                result_views(out@) == mid + flat(wlists.take(k as int)),
        {
            let w = &fi.wildcard_imports[k];
            let cond = pattern.matches(w.as_str());
            let q = QueryResult { file_path: path.clone(), line_number: 0, column: 0, symbol: concat2(w.as_str(), ".*"), fqdn: Some(w.clone()) };
            push_if(out, cond, q);
            proof {
                lemma_flat_take(wlists, k as int);
            }
        }
        proof {
            lemma_flat_all(wlists);
        }
        assert(result_views(out@) =~= start + import_results(*pattern, path@, fi@));
    }

    /// Adds a package candidate: kept when it matches and its package was
    /// not kept before.
    fn package_step(
        pattern: &Pattern,
        path: &String,
        pkg: String,
        symbol: String,
        seen: &mut Vec<String>,
        out: &mut Vec<QueryResult>,
        Ghost(cands): Ghost<Seq<(Seq<char>, Seq<char>)>>,
        Ghost(start): Ghost<Seq<QueryResultView>>,
    )
        requires
            string_views(old(seen)@) == package_scan(*pattern, cands).0,
            result_views(old(out)@) == start + package_scan(*pattern, cands).1.map_values(
                |c: (Seq<char>, Seq<char>)| qr(path@, 0, 0, c.1, Some(c.0)),
            ),
        ensures
            string_views(final(seen)@) == package_scan(*pattern, cands.push((pkg@, symbol@))).0,
            result_views(final(out)@) == start + package_scan(*pattern, cands.push((pkg@, symbol@))).1.map_values(
                |c: (Seq<char>, Seq<char>)| qr(path@, 0, 0, c.1, Some(c.0)),
            ),
    {
        let ghost prev = package_scan(*pattern, cands);
        let ghost f = |c: (Seq<char>, Seq<char>)| qr(path@, 0, 0, c.1, Some(c.0));
        assert(cands.push((pkg@, symbol@)).drop_last() =~= cands);
        let ghost pv = pkg@;
        let ghost sv = symbol@;
        if pattern.matches(pkg.as_str()) && !string_contains(seen, pkg.as_str()) {
            let ghost before_seen = seen@;
            seen.push(pkg.clone());
            assert(string_views(seen@) =~= string_views(before_seen).push(pv));
            let q = QueryResult { file_path: path.clone(), line_number: 0, column: 0, symbol, fqdn: Some(pkg) };
            let ghost before = result_views(out@);
            out.push(q);
            assert(prev.1.push((pv, sv)).map_values(f) =~= prev.1.map_values(f).push(q@));
            assert(result_views(out@) =~= before.push(q@));
        }
    }

    fn package_results_exec(&self, pattern: &Pattern, path: &String, fi: &FileInfo, out: &mut Vec<QueryResult>)
        ensures
            result_views(final(out)@) == result_views(old(out)@) + package_results(*pattern, path@, fi@),
    {
        let ghost start = result_views(out@);
        let ghost f = |c: (Seq<char>, Seq<char>)| qr(path@, 0, 0, c.1, Some(c.0));
        let mut seen: Vec<String> = Vec::new();
        let ghost mut cands: Seq<(Seq<char>, Seq<char>)> = Seq::empty();
        assert(string_views(seen@) =~= package_scan(*pattern, cands).0);
        assert(result_views(out@) =~= start + package_scan(*pattern, cands).1.map_values(f));
        match &fi.package_name {
            Some(p) => {
                Self::package_step(pattern, path, p.clone(), p.clone(), &mut seen, out, Ghost(cands), Ghost(start));
                proof {
                    cands = cands.push((p@, p@));
                }
            },
            None => {},
        }
        let ghost c0 = cands;
        assert(c0 =~= match fi@.package_name {
            Some(p) => seq![(p, p)],
            None => Seq::<(Seq<char>, Seq<char>)>::empty(),
        });
        let ghost elists = fi@.explicit_imports.map_values(
            |e: (Seq<char>, Seq<char>)|
                match last_index_of(e.1, '.') {
                    Some(k) => seq![(e.1.take(k), e.1.take(k))],
                    None => Seq::<(Seq<char>, Seq<char>)>::empty(),
                },
        );
        let n = fi.explicit_imports.len();
        assert(c0 + flat(elists.take(0)) =~= c0);
        for k in 0..n
            invariant
                n == fi.explicit_imports@.len(),
                elists == fi@.explicit_imports.map_values(
                    |e: (Seq<char>, Seq<char>)|
                        match last_index_of(e.1, '.') {
                            Some(k) => seq![(e.1.take(k), e.1.take(k))],
                            None => Seq::<(Seq<char>, Seq<char>)>::empty(),
                        },
                ),
                f == (|c: (Seq<char>, Seq<char>)| qr(path@, 0, 0, c.1, Some(c.0))),
                cands == c0 + flat(elists.take(k as int)),
                string_views(seen@) == package_scan(*pattern, cands).0,
                result_views(out@) == start + package_scan(*pattern, cands).1.map_values(f),
        {
            let (_, fqdn) = fi.explicit_imports.entry(k);
            assert(fi@.explicit_imports[k as int].1 == fqdn@);
            proof {
                lemma_flat_take(elists, k as int);
            }
            match package_part(fqdn.as_str()) {
                Some(pkg) => {
                    let ghost pk = pkg@;
                    Self::package_step(pattern, path, pkg.clone(), pkg, &mut seen, out, Ghost(cands), Ghost(start));
                    proof {
                        cands = cands.push((pk, pk));
                        assert(cands =~= c0 + flat(elists.take(k + 1)));
                    }
                },
                None => {
                    assert(cands =~= c0 + flat(elists.take(k + 1)));
                },
            }
        }
        proof {
            lemma_flat_all(elists);
        }
        let ghost c1 = cands;
        let m = fi.wildcard_imports.len();
        let ghost ws = fi@.wildcard_imports.map_values(|w: Seq<char>| (w, w + ".*"@));
        for k in 0..m
            invariant
                m == fi.wildcard_imports@.len(),
                ws == fi@.wildcard_imports.map_values(|w: Seq<char>| (w, w + ".*"@)),
                f == (|c: (Seq<char>, Seq<char>)| qr(path@, 0, 0, c.1, Some(c.0))),
                cands == c1 + ws.take(k as int),
                string_views(seen@) == package_scan(*pattern, cands).0,
                result_views(out@) == start + package_scan(*pattern, cands).1.map_values(f),
        {
            let w = &fi.wildcard_imports[k];
            let sym = concat2(w.as_str(), ".*");
            let ghost wv = w@;
            Self::package_step(pattern, path, w.clone(), sym, &mut seen, out, Ghost(cands), Ghost(start));
            proof {
                cands = cands.push((wv, wv + ".*"@));
                assert(cands =~= c1 + ws.take(k + 1));
            }
        }
        assert(cands =~= package_candidates(fi@));
    }
}

/// The first field named `name` in a list of fields.
fn first_field_named_exec<'a>(fs: &'a Vec<FieldInfo>, name: &str) -> (r: Option<&'a FieldInfo>)
    ensures
        match r {
            Some(fd) => first_field_named(field_views(fs@), name@) == Some(fd@),
            None => first_field_named(field_views(fs@), name@) is None,
        },
{
    let ghost fv = field_views(fs@);
    let n = fs.len();
    assert(fv.skip(0) =~= fv);
    for k in 0..n
        invariant
            n == fs@.len(),
            fv == field_views(fs@),
            first_field_named(fv, name@) == first_field_named(fv.skip(k as int), name@),
    {
        assert(fv.skip(k as int)[0] == fs@[k as int]@);
        assert(fv.skip(k as int).drop_first() =~= fv.skip(k + 1));
        if str_eq(fs[k].name.as_str(), name) {
            return Some(&fs[k]);
        }
    }
    assert(fv.skip(n as int).len() == 0);
    None
}

/// The first field named `name` in the first class that has one.
fn field_named_exec<'a>(classes: &'a StrMap<ClassInfo>, name: &str) -> (r: Option<&'a FieldInfo>)
    ensures
        match r {
            Some(fd) => field_named(entries_view(classes@), name@) == Some(fd@),
            None => field_named(entries_view(classes@), name@) is None,
        },
{
    let ghost cs = entries_view(classes@);
    let n = classes.len();
    assert(cs.skip(0) =~= cs);
    for i in 0..n
        invariant
            n == classes@.len(),
            cs == entries_view(classes@),
            field_named(cs, name@) == field_named(cs.skip(i as int), name@),
    {
        let (_, c) = classes.entry(i);
        assert(cs.skip(i as int)[0].1 == c@);
        assert(cs.skip(i as int).drop_first() =~= cs.skip(i + 1));
        match first_field_named_exec(&c.fields, name) {
            Some(fd) => {
                return Some(fd);
            },
            None => {},
        }
    }
    assert(cs.skip(n as int).len() == 0);
    None
}

/// `Simple.method` for a receiver type with a dot.
fn simple_call_name_exec(receiver: &str, name: &str) -> (r: Option<String>)
    ensures
        opt_view(r) == simple_call_name(receiver@, name@),
{
    let cs = chars_of(receiver);
    match last_index_of_char(cs.as_slice(), '.') {
        Some(k) => {
            let n = cs.len();
            let tail = string_of_range(cs.as_slice(), k + 1, n);
            assert(tail@ =~= receiver@.skip(k + 1));
            Some(concat3(tail.as_str(), ".", name))
        },
        None => None,
    }
}

impl QueryEngine {
    fn receiver_type_exec(&self, path: &String, fi: &FileInfo, mc: &MethodCall) -> (r: Option<String>)
        ensures
            opt_view(r) == receiver_type(self.resolver(), path@, fi@, mc@),
    {
        match &mc.receiver_type {
            None => None,
            Some(rn) => match self.type_resolver.resolve_type_name(rn.as_str(), path.as_str()) {
                Some(x) => Some(x),
                None => match field_named_exec(&fi.classes, rn.as_str()) {
                    Some(fd) => Some(self.resolved_or_same(fd.type_name_.as_str(), path.as_str())),
                    None => None,
                },
            },
        }
    }

    fn call_results_exec(&self, pattern: &Pattern, path: &String, fi: &FileInfo, out: &mut Vec<QueryResult>)
        ensures
            result_views(final(out)@) == result_views(old(out)@) + call_results(self.resolver(), *pattern, path@, fi@),
    {
        let ghost start = result_views(out@);
        let ghost lists = fi@.method_calls.map_values(|mc: MethodCallView| call_result(self.resolver(), *pattern, path@, fi@, mc));
        let n = fi.method_calls.len();
        assert(start + flat(lists.take(0)) =~= start);
        for k in 0..n
            invariant
                n == fi.method_calls@.len(),
                lists == fi@.method_calls.map_values(|mc: MethodCallView| call_result(self.resolver(), *pattern, path@, fi@, mc)),
                result_views(out@) == start + flat(lists.take(k as int)),
        {
            let mc = &fi.method_calls[k];
            let recv = self.receiver_type_exec(path, fi, mc);
            let name = &mc.method_name;
            let full = match &recv {
                Some(x) => Some(concat3(x.as_str(), ".", name.as_str())),
                None => None,
            };
            let simple = match &recv {
                Some(x) => simple_call_name_exec(x.as_str(), name.as_str()),
                None => None,
            };
            let m1 = pattern.matches(name.as_str());
            let m2 = match &full {
                Some(q) => pattern.matches(q.as_str()),
                None => false,
            };
            let m3 = match &simple {
                Some(q) => pattern.matches(q.as_str()),
                None => false,
            };
            let symbol = match &full {
                Some(q) => q.clone(),
                None => name.clone(),
            };
            let q = QueryResult {
                file_path: path.clone(),
                line_number: mc.position.line,
                column: mc.position.column,
                symbol,
                fqdn: recv,
            };
            push_if(out, m1 || m2 || m3, q);
            proof {
                lemma_flat_take(lists, k as int);
            }
        }
        proof {
            lemma_flat_all(lists);
        }
    }

    fn constructor_results_exec(&self, pattern: &Pattern, path: &String, fi: &FileInfo, out: &mut Vec<QueryResult>)
        ensures
            result_views(final(out)@) == result_views(old(out)@) + constructor_results(self.resolver(), *pattern, path@, fi@),
    {
        let ghost start = result_views(out@);
        let ghost lists = fi@.constructor_calls.map_values(|cc: ConstructorCallView| constructor_result(self.resolver(), *pattern, path@, cc));
        let n = fi.constructor_calls.len();
        assert(start + flat(lists.take(0)) =~= start);
        for k in 0..n
            invariant
                n == fi.constructor_calls@.len(),
                lists == fi@.constructor_calls.map_values(|cc: ConstructorCallView| constructor_result(self.resolver(), *pattern, path@, cc)),
                result_views(out@) == start + flat(lists.take(k as int)),
        {
            let cc = &fi.constructor_calls[k];
            let rt = self.resolved_or_same(cc.type_name_.as_str(), path.as_str());
            let cond = pattern.matches(rt.as_str()) || pattern.matches(cc.type_name_.as_str());
            let q = QueryResult {
                file_path: path.clone(),
                line_number: cc.position.line,
                column: cc.position.column,
                symbol: concat2("new ", cc.type_name_.as_str()),
                fqdn: Some(rt),
            };
            push_if(out, cond, q);
            proof {
                lemma_flat_take(lists, k as int);
            }
        }
        proof {
            lemma_flat_all(lists);
        }
    }

    fn variable_results_exec(&self, pattern: &Pattern, path: &String, fi: &FileInfo, out: &mut Vec<QueryResult>)
        ensures
            result_views(final(out)@) == result_views(old(out)@) + variable_results(self.resolver(), *pattern, path@, fi@),
    {
        let ghost start = result_views(out@);
        let ghost lists = fi@.variables.map_values(|v: VariableDeclarationView| variable_result(self.resolver(), *pattern, path@, v));
        let n = fi.variables.len();
        assert(start + flat(lists.take(0)) =~= start);
        for k in 0..n
            invariant
                n == fi.variables@.len(),
                lists == fi@.variables.map_values(|v: VariableDeclarationView| variable_result(self.resolver(), *pattern, path@, v)),
                result_views(out@) == start + flat(lists.take(k as int)),
        {
            let v = &fi.variables[k];
            let rt = self.resolved_or_same(v.type_name_.as_str(), path.as_str());
            let cond = pattern.matches(rt.as_str()) || pattern.matches(v.type_name_.as_str()) || pattern.matches(v.variable_name.as_str());
            let base = concat3(v.type_name_.as_str(), " ", v.variable_name.as_str());
            let symbol = match &v.method_context {
                Some(m) => match &v.class_context {
                    Some(c) => {
                        let a = concat3(base.as_str(), " in ", c.as_str());
                        concat3(a.as_str(), ".", m.as_str())
                    },
                    None => concat3(base.as_str(), " in ", m.as_str()),
                },
                None => base,
            };
            let q = QueryResult {
                file_path: path.clone(),
                line_number: v.position.line,
                column: v.position.column,
                symbol,
                fqdn: Some(rt),
            };
            push_if(out, cond, q);
            proof {
                lemma_flat_take(lists, k as int);
            }
        }
        proof {
            lemma_flat_all(lists);
        }
    }

    /// The results one file gives for a location type.
    fn file_results(&self, loc: LocationType, pattern: &Pattern, filter: Option<&AnnotationFilter>, path: &String, fi: &FileInfo, out: &mut Vec<QueryResult>)
        ensures
            result_views(final(out)@) == result_views(old(out)@) + location_results(self.resolver(), loc, *pattern, filter_of(filter), path@, fi@),
    {
        match loc {
            LocationType::Import => self.import_results_exec(pattern, path, fi, out),
            LocationType::Package => self.package_results_exec(pattern, path, fi, out),
            LocationType::MethodCall => self.call_results_exec(pattern, path, fi, out),
            LocationType::ConstructorCall => self.constructor_results_exec(pattern, path, fi, out),
            LocationType::Variable => self.variable_results_exec(pattern, path, fi, out),
            _ => {
                let ghost start = result_views(out@);
                let ghost lists = fi@.classes.map_values(|e: (Seq<char>, ClassInfoView)| class_level(self.resolver(), loc, *pattern, filter_of(filter), path@, fi@, e.1));
                let n = fi.classes.len();
                assert(start + flat(lists.take(0)) =~= start);
                for k in 0..n
                    invariant
                        n == fi.classes@.len(),
                        lists == fi@.classes.map_values(|e: (Seq<char>, ClassInfoView)| class_level(self.resolver(), loc, *pattern, filter_of(filter), path@, fi@, e.1)),
                        result_views(out@) == start + flat(lists.take(k as int)),
                {
                    let (_, c) = fi.classes.entry(k);
                    assert(fi@.classes[k as int].1 == c@);
                    self.class_results(loc, pattern, filter, path, fi, c, out);
                    proof {
                        lemma_flat_take(lists, k as int);
                    }
                }
                proof {
                    lemma_flat_all(lists);
                }
            },
        }
    }

    /// The results of all files for a location type.
    fn query_location(&self, loc: LocationType, pattern: &Pattern, filter: Option<&AnnotationFilter>) -> (r: Vec<QueryResult>)
        ensures
            result_views(r@) == query_results(self.resolver(), loc, *pattern, filter_of(filter)),
    {
        let mut out: Vec<QueryResult> = Vec::new();
        let ghost lists = self.resolver().file_infos.map_values(|e: (Seq<char>, FileInfoView)| location_results(self.resolver(), loc, *pattern, filter_of(filter), e.0, e.1));
        let n = self.type_resolver.file_infos.len();
        assert(result_views(out@) =~= flat(lists.take(0)));
        for i in 0..n
            invariant
                n == self.type_resolver.file_infos@.len(),
                lists == self.resolver().file_infos.map_values(|e: (Seq<char>, FileInfoView)| location_results(self.resolver(), loc, *pattern, filter_of(filter), e.0, e.1)),
                result_views(out@) == flat(lists.take(i as int)),
        {
            let (path, fi) = self.type_resolver.file_infos.entry(i);
            assert(self.resolver().file_infos[i as int] == (path@, fi@));
            self.file_results(loc, pattern, filter, path, fi, &mut out);
            proof {
                lemma_flat_take(lists, i as int);
            }
        }
        proof {
            lemma_flat_all(lists);
        }
        out
    }
}


/// Whether a result lies in test code.
fn is_test_result_exec(q: &QueryResult) -> (b: bool)
    ensures
        b == is_test_result(q@),
{
    contains_str(q.file_path.as_str(), "/test/") || contains_str(q.file_path.as_str(), "Test.java")
        || contains_str(q.symbol.as_str(), "Test")
}

impl QueryEngine {
    /// Keeps the results that pass the filters, in order: with
    /// `exclude_tests`, results in test code are left out.
    fn apply_filters(&self, results: Vec<QueryResult>, filters: &QueryFilters) -> (r: Vec<QueryResult>)
        ensures
            result_views(r@) == filtered(result_views(results@), filters.exclude_tests),
    {
        let mut out: Vec<QueryResult> = Vec::new();
        let ghost rs = result_views(results@);
        let ghost lists = rs.map_values(|q: QueryResultView| opt_if(!(filters.exclude_tests && is_test_result(q)), q));
        let n = results.len();
        assert(result_views(out@) =~= flat(lists.take(0)));
        for i in 0..n
            invariant
                n == results@.len(),
                rs == result_views(results@),
                lists == rs.map_values(|q: QueryResultView| opt_if(!(filters.exclude_tests && is_test_result(q)), q)),
                result_views(out@) == flat(lists.take(i as int)),
        {
            let q = &results[i];
            let keep = !(filters.exclude_tests && is_test_result_exec(q));
            push_if(&mut out, keep, q.duplicate());
            proof {
                lemma_flat_take(lists, i as int);
            }
        }
        proof {
            lemma_flat_all(lists);
        }
        out
    }

    /// Runs a query: the results of every analysed file for the query's
    /// location type, files in order, then the filters where given.
    pub fn query(&self, query: &ReferencedQuery) -> (r: Vec<QueryResult>)
        ensures
            result_views(r@) == referenced_results(self.resolver(), *query),
    {
        let results = self.query_location(query.location, &query.pattern, query.annotated.as_ref());
        match &query.filters {
            Some(f) => self.apply_filters(results, f),
            None => results,
        }
    }
}

/// Gathering the one-element lists of the items that pass is filtering
/// them and mapping the rest.
proof fn lemma_flat_opt_if<A, B>(s: Seq<A>, keep: spec_fn(A) -> bool, g: spec_fn(A) -> B)
    ensures
        flat(s.map_values(|x: A| opt_if(keep(x), g(x)))) == s.filter(keep).map_values(g),
    decreases s.len(),
{
    reveal(Seq::filter);
    if s.len() == 0 {
        assert(s.map_values(|x: A| opt_if(keep(x), g(x))) =~= Seq::<Seq<B>>::empty());
        assert(s.filter(keep).map_values(g) =~= Seq::<B>::empty());
    } else {
        let rest = s.drop_last();
        lemma_flat_opt_if(rest, keep, g);
        assert(s.map_values(|x: A| opt_if(keep(x), g(x))).drop_last() =~= rest.map_values(
            |x: A| opt_if(keep(x), g(x)),
        ));
        if keep(s.last()) {
            assert(s.filter(keep).map_values(g) =~= rest.filter(keep).map_values(g).push(g(s.last())));
        } else {
            assert(s.filter(keep).map_values(g) =~= rest.filter(keep).map_values(g));
        }
    }
}

/// Whether a field's type, resolved in its file or as written, matches.
pub open spec fn field_type_matches(r: TypeResolverView, p: Pattern, path: Seq<char>, fd: FieldInfoView) -> bool {
    pattern_matches(p, resolved_or_same(r, fd.type_name_, path)) || pattern_matches(p, fd.type_name_)
}

/// The result a matching field gives.
pub open spec fn field_hit(r: TypeResolverView, path: Seq<char>, fd: FieldInfoView) -> QueryResultView {
    qr(path, fd.position.line, fd.position.column, fd.name + ": "@ + fd.type_name_, Some(resolved_or_same(r, fd.type_name_, path)))
}

/// For a pattern whose text holds no space and no annotation filter, a
/// class's field results are one per field whose type (resolved or as
/// written) matches, in order; the field's name plays no part.
pub proof fn law_field_results(r: TypeResolverView, p: Pattern, path: Seq<char>, c: ClassInfoView, fd: FieldInfoView, other: Seq<char>)
    requires
        pattern_text(p) matches Some(ps) ==> !ps.contains(' '),
    ensures
        field_results(r, p, None, path, c) == c.fields.filter(|x: FieldInfoView| field_type_matches(r, p, path, x)).map_values(
            |x: FieldInfoView| field_hit(r, path, x),
        ),
        field_matches(r, p, path, fd) == field_type_matches(r, p, path, fd),
        field_matches(r, p, path, FieldInfoView { name: other, ..fd }) == field_matches(r, p, path, fd),
{
    let keep = |x: FieldInfoView| field_type_matches(r, p, path, x);
    let g = |x: FieldInfoView| field_hit(r, path, x);
    assert(c.fields.map_values(|x: FieldInfoView| field_result(r, p, None, path, x)) =~= c.fields.map_values(
        |x: FieldInfoView| opt_if(keep(x), g(x)),
    ));
    lemma_flat_opt_if(c.fields, keep, g);
}

/// Whether a method matches by name: its `Class.method` name, qualified or
/// simple, or its own name.
pub open spec fn method_name_matches(p: Pattern, c: ClassInfoView, m: MethodInfoView) -> bool {
    pattern_matches(p, c.fqdn + "."@ + m.name) || pattern_matches(p, c.simple_name + "."@ + m.name)
        || pattern_matches(p, m.name)
}

/// The result a matching method gives.
pub open spec fn method_hit(path: Seq<char>, c: ClassInfoView, m: MethodInfoView) -> QueryResultView {
    qr(path, m.position.line, m.position.column, m.name, Some(c.fqdn + "."@ + m.name))
}

/// For a pattern whose text holds no space and no annotation filter, a
/// class's method results are one per method whose qualified, class-qualified
/// or plain name matches, in order.
pub proof fn law_method_results(r: TypeResolverView, p: Pattern, path: Seq<char>, c: ClassInfoView)
    requires
        pattern_text(p) matches Some(ps) ==> !ps.contains(' '),
    ensures
        method_results(r, p, None, path, c) == c.methods.filter(|m: MethodInfoView| method_name_matches(p, c, m)).map_values(
            |m: MethodInfoView| method_hit(path, c, m),
        ),
{
    let keep = |m: MethodInfoView| method_name_matches(p, c, m);
    let g = |m: MethodInfoView| method_hit(path, c, m);
    assert(c.methods.map_values(|m: MethodInfoView| method_result(r, p, None, path, c, m)) =~= c.methods.map_values(
        |m: MethodInfoView| opt_if(keep(m), g(m)),
    ));
    lemma_flat_opt_if(c.methods, keep, g);
}

/// An element of one part is an element of the parts gathered together.
proof fn lemma_flat_contains<A>(s: Seq<Seq<A>>, k: int, x: A)
    requires
        0 <= k < s.len(),
        s[k].contains(x),
    ensures
        flat(s).contains(x),
    decreases s.len(),
{
    let j = choose|j: int| 0 <= j < s[k].len() && s[k][j] == x;
    if k == s.len() - 1 {
        assert(flat(s)[flat(s.drop_last()).len() + j] == x);
    } else {
        assert(s.drop_last()[k] == s[k]);
        lemma_flat_contains(s.drop_last(), k, x);
        let m = choose|m: int| 0 <= m < flat(s.drop_last()).len() && flat(s.drop_last())[m] == x;
        assert(flat(s)[m] == x);
    }
}

/// An inheritance query finds every class whose superclass, resolved to
/// its qualified name in the class's file, matches the pattern: the results
/// hold that class's `C extends P` result with the resolved name. So a
/// fully qualified pattern finds subclasses that name their superclass
/// simply.
pub proof fn law_inheritance_finds_resolved_parent(
    r: TypeResolverView,
    p: Pattern,
    f: Option<AnnotationFilter>,
    i: int,
    j: int,
    parent: Seq<char>,
)
    requires
        0 <= i < r.file_infos.len(),
        0 <= j < r.file_infos[i].1.classes.len(),
        r.file_infos[i].1.classes[j].1.extends == Some(parent),
        pattern_matches(p, resolved_or_same(r, parent, r.file_infos[i].0)),
    ensures
        query_results(r, LocationType::Inheritance, p, f).contains(
            qr(
                r.file_infos[i].0,
                r.file_infos[i].1.classes[j].1.position.line,
                r.file_infos[i].1.classes[j].1.position.column,
                r.file_infos[i].1.classes[j].1.simple_name + " extends "@ + parent,
                Some(resolved_or_same(r, parent, r.file_infos[i].0)),
            ),
        ),
{
    let path = r.file_infos[i].0;
    let fi = r.file_infos[i].1;
    let c = fi.classes[j].1;
    let x = qr(
        path,
        c.position.line,
        c.position.column,
        c.simple_name + " extends "@ + parent,
        Some(resolved_or_same(r, parent, path)),
    );
    let per_class = fi.classes.map_values(
        |e: (Seq<char>, ClassInfoView)| class_level(r, LocationType::Inheritance, p, f, path, fi, e.1),
    );
    assert(per_class[j] == inheritance_results(r, p, path, c));
    assert(inheritance_results(r, p, path, c)[0] == x);
    lemma_flat_contains(per_class, j, x);
    let per_file = r.file_infos.map_values(
        |e: (Seq<char>, FileInfoView)| location_results(r, LocationType::Inheritance, p, f, e.0, e.1),
    );
    assert(per_file[i] == location_results(r, LocationType::Inheritance, p, f, path, fi));
    lemma_flat_contains(per_file, i, x);
}

} // verus!

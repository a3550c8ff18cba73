//! Extraction of the symbols of a Java source file from its syntax tree.
//!
//! Every extraction is stated as a spec function over the tree's nodes;
//! the executable functions compute exactly those values.

use vstd::prelude::*;

use crate::java_graph::model::{
    string_views, AnnotationInfo, AnnotationInfoView, AnnotationTarget, AnnotationTargetView,
    AnnotationUsage, AnnotationUsageView, ClassInfo, ClassInfoView, ConstructorCall,
    ConstructorCallView, FieldInfo, FieldInfoView, FileInfo, FileInfoView, MethodCall,
    MethodCallView, MethodInfo, MethodInfoView, SourcePosition, VariableDeclaration,
    VariableDeclarationView, annotation_views, field_views, method_views, pair_views, view_opt,
};
use crate::strmap::{entries_view, insert_entry, lemma_insert_view, StrMap};
use crate::syntax::{
    field_child, first_child_of_kinds, nearest_ancestor, nodes_of_kind, tree_wf, NodeView,
    SyntaxTree,
};
use crate::text::{
    opt_view,
    concat3, one_of, own, split_char, split_on_char, str_eq, str_views, trim_by, trim_char,
    trim_start_by, trim_start_char, chars_of, contains_char,
};

verus! {

// ---------------------------------------------------------------------------
// Node kinds
// ---------------------------------------------------------------------------

/// Kinds that name a type or a plain identifier.
pub open spec fn ident_kinds() -> Seq<Seq<char>> {
    seq!["type_identifier"@, "identifier"@]
}

/// Kinds that give the type of a field.
pub open spec fn field_type_kinds() -> Seq<Seq<char>> {
    seq![
        "integral_type"@,
        "floating_point_type"@,
        "boolean_type"@,
        "type_identifier"@,
        "identifier"@,
    ]
}

/// Kinds that give the return type of a method.
pub open spec fn return_type_kinds() -> Seq<Seq<char>> {
    seq![
        "integral_type"@,
        "floating_point_type"@,
        "boolean_type"@,
        "type_identifier"@,
        "void_type"@,
    ]
}

/// Kinds that give the type of a parameter.
pub open spec fn param_type_kinds() -> Seq<Seq<char>> {
    seq!["integral_type"@, "floating_point_type"@, "boolean_type"@, "type_identifier"@]
}

/// Kinds of annotations.
pub open spec fn annotation_kinds() -> Seq<Seq<char>> {
    seq!["marker_annotation"@, "annotation"@]
}

/// Kinds that can name an annotation.
pub open spec fn annotation_name_kinds() -> Seq<Seq<char>> {
    seq!["identifier"@, "scoped_identifier"@, "type_identifier"@]
}

/// Kinds of type declarations.
pub open spec fn class_kinds() -> Seq<Seq<char>> {
    seq!["class_declaration"@, "interface_declaration"@, "enum_declaration"@]
}

/// Kinds of type declaration bodies.
pub open spec fn body_kinds() -> Seq<Seq<char>> {
    seq!["class_body"@, "interface_body"@, "enum_body"@]
}

/// Kinds that name a package or an imported entity.
pub open spec fn qualified_name_kinds() -> Seq<Seq<char>> {
    seq!["scoped_identifier"@, "identifier"@]
}

/// Kinds of array values in annotations.
pub open spec fn array_value_kinds() -> Seq<Seq<char>> {
    seq!["element_value_array_initializer"@, "array_initializer"@]
}

/// Kinds of literal element values.
pub open spec fn literal_kinds() -> Seq<Seq<char>> {
    seq!["string_literal"@, "decimal_integer_literal"@, "boolean_literal"@]
}

/// Kinds of the single value of an annotation written without a name.
pub open spec fn single_value_kinds() -> Seq<Seq<char>> {
    seq!["string_literal"@, "identifier"@, "decimal_integer_literal"@, "boolean_literal"@]
}

/// Kinds of method and constructor declarations.
pub open spec fn callable_kinds() -> Seq<Seq<char>> {
    seq!["method_declaration"@, "constructor_declaration"@]
}

fn ident_kind_list() -> (r: Vec<&'static str>)
    ensures
        str_views(r@) == ident_kinds(),
{
    let r = vec!["type_identifier", "identifier"];
    assert(str_views(r@) =~= ident_kinds());
    r
}

fn field_type_kind_list() -> (r: Vec<&'static str>)
    ensures
        str_views(r@) == field_type_kinds(),
{
    let r = vec![
        "integral_type",
        "floating_point_type",
        "boolean_type",
        "type_identifier",
        "identifier",
    ];
    assert(str_views(r@) =~= field_type_kinds());
    r
}

fn return_type_kind_list() -> (r: Vec<&'static str>)
    ensures
        str_views(r@) == return_type_kinds(),
{
    let r = vec!["integral_type", "floating_point_type", "boolean_type", "type_identifier", "void_type"];
    assert(str_views(r@) =~= return_type_kinds());
    r
}

fn param_type_kind_list() -> (r: Vec<&'static str>)
    ensures
        str_views(r@) == param_type_kinds(),
{
    let r = vec!["integral_type", "floating_point_type", "boolean_type", "type_identifier"];
    assert(str_views(r@) =~= param_type_kinds());
    r
}

fn annotation_kind_list() -> (r: Vec<&'static str>)
    ensures
        str_views(r@) == annotation_kinds(),
{
    let r = vec!["marker_annotation", "annotation"];
    assert(str_views(r@) =~= annotation_kinds());
    r
}

fn annotation_name_kind_list() -> (r: Vec<&'static str>)
    ensures
        str_views(r@) == annotation_name_kinds(),
{
    let r = vec!["identifier", "scoped_identifier", "type_identifier"];
    assert(str_views(r@) =~= annotation_name_kinds());
    r
}

fn class_kind_list() -> (r: Vec<&'static str>)
    ensures
        str_views(r@) == class_kinds(),
{
    let r = vec!["class_declaration", "interface_declaration", "enum_declaration"];
    assert(str_views(r@) =~= class_kinds());
    r
}

fn body_kind_list() -> (r: Vec<&'static str>)
    ensures
        str_views(r@) == body_kinds(),
{
    let r = vec!["class_body", "interface_body", "enum_body"];
    assert(str_views(r@) =~= body_kinds());
    r
}

fn qualified_name_kind_list() -> (r: Vec<&'static str>)
    ensures
        str_views(r@) == qualified_name_kinds(),
{
    let r = vec!["scoped_identifier", "identifier"];
    assert(str_views(r@) =~= qualified_name_kinds());
    r
}

fn array_value_kind_list() -> (r: Vec<&'static str>)
    ensures
        str_views(r@) == array_value_kinds(),
{
    let r = vec!["element_value_array_initializer", "array_initializer"];
    assert(str_views(r@) =~= array_value_kinds());
    r
}

fn literal_kind_list() -> (r: Vec<&'static str>)
    ensures
        str_views(r@) == literal_kinds(),
{
    let r = vec!["string_literal", "decimal_integer_literal", "boolean_literal"];
    assert(str_views(r@) =~= literal_kinds());
    r
}

fn single_value_kind_list() -> (r: Vec<&'static str>)
    ensures
        str_views(r@) == single_value_kinds(),
{
    let r = vec!["string_literal", "identifier", "decimal_integer_literal", "boolean_literal"];
    assert(str_views(r@) =~= single_value_kinds());
    r
}

fn callable_kind_list() -> (r: Vec<&'static str>)
    ensures
        str_views(r@) == callable_kinds(),
{
    let r = vec!["method_declaration", "constructor_declaration"];
    assert(str_views(r@) =~= callable_kinds());
    r
}

fn one_kind_list(k: &'static str) -> (r: Vec<&'static str>)
    ensures
        str_views(r@) == seq![k@],
{
    let r = vec![k];
    assert(str_views(r@) =~= seq![k@]);
    r
}

// ---------------------------------------------------------------------------
// Node helpers
// ---------------------------------------------------------------------------

/// The text of a node.
pub open spec fn text_at(t: Seq<NodeView>, i: usize) -> Seq<char> {
    t[i as int].text
}

/// The kind of a node.
pub open spec fn kind_at(t: Seq<NodeView>, i: usize) -> Seq<char> {
    t[i as int].kind
}

/// The text of an optional node.
pub open spec fn opt_text(t: Seq<NodeView>, o: Option<usize>) -> Option<Seq<char>> {
    match o {
        Some(i) => Some(text_at(t, i)),
        None => None,
    }
}

/// The text of an optional node, empty when there is none.
pub open spec fn text_or_empty(t: Seq<NodeView>, o: Option<usize>) -> Seq<char> {
    match o {
        Some(i) => text_at(t, i),
        None => Seq::empty(),
    }
}

/// Zero-based to one-based (a count that cannot grow stays).
pub open spec fn one_based(r: usize) -> usize {
    if r < usize::MAX {
        (r + 1) as usize
    } else {
        r
    }
}

/// The source position of a node: one-based lines, zero-based columns.
pub open spec fn node_position(t: Seq<NodeView>, i: usize) -> SourcePosition {
    SourcePosition {
        line: one_based(t[i as int].start_row),
        column: t[i as int].start_column,
        end_line: one_based(t[i as int].end_row),
        end_column: t[i as int].end_column,
    }
}

/// The single element of an option, or nothing.
pub open spec fn opt_seq<A>(o: Option<A>) -> Seq<A> {
    match o {
        Some(a) => seq![a],
        None => Seq::empty(),
    }
}

/// The base type of a generic type node (its first type name child).
pub open spec fn generic_base(t: Seq<NodeView>, g: usize) -> Option<usize> {
    first_child_of_kinds(t, g, ident_kinds())
}

/// The type name of a type node: itself for a type identifier, the base
/// type's name for a generic type (its own text without one), its text
/// otherwise.
pub open spec fn type_name_of(t: Seq<NodeView>, n: usize) -> Seq<char> {
    if kind_at(t, n) == "generic_type"@ {
        match first_child_of_kinds(t, n, seq!["type_identifier"@]) {
            Some(b) => text_at(t, b),
            None => text_at(t, n),
        }
    } else {
        text_at(t, n)
    }
}

/// Whether every node index is in range.
pub open spec fn indices_in(t: Seq<NodeView>, cs: Seq<usize>) -> bool {
    forall|k: int| 0 <= k < cs.len() ==> (#[trigger] cs[k] as int) < t.len()
}

fn text_string(tree: &SyntaxTree, i: usize) -> (r: String)
    requires
        i < tree@.len(),
    ensures
        r@ == text_at(tree@, i),
{
    own(tree.text(i))
}

fn kind_is(tree: &SyntaxTree, i: usize, k: &str) -> (b: bool)
    requires
        i < tree@.len(),
    ensures
        b == (kind_at(tree@, i) == k@),
{
    str_eq(tree.kind(i), k)
}

fn one_based_exec(r: usize) -> (n: usize)
    ensures
        n == one_based(r),
{
    if r < usize::MAX {
        r + 1
    } else {
        r
    }
}

impl SourcePosition {
    /// The source position of node `i`: one-based lines, zero-based columns.
    pub fn from_node(tree: &SyntaxTree, i: usize) -> (p: SourcePosition)
        requires
            i < tree@.len(),
        ensures
            p == node_position(tree@, i),
    {
        let n = tree.node(i);
        SourcePosition {
            line: one_based_exec(n.start_row),
            column: n.start_column,
            end_line: one_based_exec(n.end_row),
            end_column: n.end_column,
        }
    }
}

fn generic_base_exec(tree: &SyntaxTree, g: usize) -> (r: Option<usize>)
    requires
        g < tree@.len(),
    ensures
        r == generic_base(tree@, g),
        r matches Some(b) ==> (b as int) < tree@.len(),
{
    tree.first_child_of_kinds(g, &ident_kind_list())
}

/// The type name of a type node.
pub fn type_name_from_node(tree: &SyntaxTree, n: usize) -> (r: String)
    requires
        n < tree@.len(),
    ensures
        r@ == type_name_of(tree@, n),
{
    if kind_is(tree, n, "generic_type") {
        match tree.first_child_of_kinds(n, &one_kind_list("type_identifier")) {
            Some(b) => text_string(tree, b),
            None => text_string(tree, n),
        }
    } else {
        text_string(tree, n)
    }
}

// ---------------------------------------------------------------------------
// Superclass and interfaces
// ---------------------------------------------------------------------------

/// The first type named among the nodes: a type name itself, or the base of
/// a generic type that has one.
pub open spec fn superclass_type_in(t: Seq<NodeView>, cs: Seq<usize>) -> Option<Seq<char>>
    decreases cs.len(),
{
    if cs.len() == 0 {
        None
    } else {
        let c = cs[0];
        if ident_kinds().contains(kind_at(t, c)) {
            Some(text_at(t, c))
        } else if kind_at(t, c) == "generic_type"@ && generic_base(t, c) is Some {
            Some(text_at(t, generic_base(t, c)->0))
        } else {
            superclass_type_in(t, cs.drop_first())
        }
    }
}

/// The type named in a `superclass` clause.
pub open spec fn superclass_type(t: Seq<NodeView>, s: usize) -> Option<Seq<char>> {
    superclass_type_in(t, t[s as int].children)
}

fn superclass_type_exec(tree: &SyntaxTree, s: usize) -> (r: Option<String>)
    requires
        s < tree@.len(),
    ensures
        opt_view(r) == superclass_type(tree@, s),
{
    let cs = tree.children(s);
    let ghost all = cs@;
    let ghost t = tree@;
    let idents = ident_kind_list();
    let n = cs.len();
    assert(all.skip(0) =~= all);
    for k in 0..n
        invariant
            n == all.len(),
            all == cs@,
            t == tree@,
            indices_in(t, all),
            str_views(idents@) == ident_kinds(),
            superclass_type(t, s) == superclass_type_in(t, all.skip(k as int)),
            all == t[s as int].children,
    {
        let c = cs[k];
        assert(all.skip(k as int)[0] == c);
        assert(all.skip(k as int).drop_first() =~= all.skip(k + 1));
        if tree.kind_is_one_of(c, &idents) {
            return Some(text_string(tree, c));
        }
        if kind_is(tree, c, "generic_type") {
            match generic_base_exec(tree, c) {
                Some(b) => {
                    return Some(text_string(tree, b));
                },
                None => {},
            }
        }
    }
    assert(all.skip(n as int).len() == 0);
    None
}

/// The type an entry of a type list names, if any.
pub open spec fn list_entry_type(t: Seq<NodeView>, n: usize) -> Seq<Seq<char>> {
    if ident_kinds().contains(kind_at(t, n)) {
        seq![text_at(t, n)]
    } else if kind_at(t, n) == "generic_type"@ {
        match generic_base(t, n) {
            Some(b) => seq![text_at(t, b)],
            None => Seq::empty(),
        }
    } else {
        Seq::empty()
    }
}

/// The types named in a type list.
pub open spec fn type_list_types(t: Seq<NodeView>, cs: Seq<usize>) -> Seq<Seq<char>>
    decreases cs.len(),
{
    if cs.len() == 0 {
        Seq::empty()
    } else {
        type_list_types(t, cs.drop_last()) + list_entry_type(t, cs.last())
    }
}

/// The types named in the type lists among the nodes.
pub open spec fn interfaces_in(t: Seq<NodeView>, cs: Seq<usize>) -> Seq<Seq<char>>
    decreases cs.len(),
{
    if cs.len() == 0 {
        Seq::empty()
    } else {
        interfaces_in(t, cs.drop_last()) + if kind_at(t, cs.last()) == "type_list"@ {
            type_list_types(t, t[cs.last() as int].children)
        } else {
            Seq::empty()
        }
    }
}

/// The interfaces named in a `super_interfaces` clause.
pub open spec fn interface_types(t: Seq<NodeView>, s: usize) -> Seq<Seq<char>> {
    interfaces_in(t, t[s as int].children)
}

fn type_list_types_exec(tree: &SyntaxTree, l: usize, out: &mut Vec<String>)
    requires
        l < tree@.len(),
    ensures
        string_views(final(out)@) == string_views(old(out)@) + type_list_types(
            tree@,
            tree@[l as int].children,
        ),
{
    let cs = tree.children(l);
    let ghost all = cs@;
    let ghost t = tree@;
    let ghost start = string_views(out@);
    let idents = ident_kind_list();
    let n = cs.len();
    for k in 0..n
        invariant
            n == all.len(),
            all == cs@,
            t == tree@,
            all == t[l as int].children,
            indices_in(t, all),
            str_views(idents@) == ident_kinds(),
            string_views(out@) == start + type_list_types(t, all.take(k as int)),
    {
        let c = cs[k];
        let ghost before = out@;
        assert(all.take(k + 1).drop_last() =~= all.take(k as int));
        assert(all.take(k + 1).last() == c);
        if tree.kind_is_one_of(c, &idents) {
            out.push(text_string(tree, c));
            assert(string_views(out@) =~= string_views(before) + seq![text_at(t, c)]);
        } else if kind_is(tree, c, "generic_type") {
            match generic_base_exec(tree, c) {
                Some(b) => {
                    out.push(text_string(tree, b));
                    assert(string_views(out@) =~= string_views(before) + seq![text_at(t, b)]);
                },
                None => {
                    assert(string_views(out@) =~= string_views(before) + Seq::<Seq<char>>::empty());
                },
            }
        } else {
            assert(string_views(out@) =~= string_views(before) + Seq::<Seq<char>>::empty());
        }
    }
    assert(all.take(n as int) =~= all);
}

fn interface_types_exec(tree: &SyntaxTree, s: usize) -> (r: Vec<String>)
    requires
        s < tree@.len(),
    ensures
        string_views(r@) == interface_types(tree@, s),
{
    let cs = tree.children(s);
    let ghost all = cs@;
    let ghost t = tree@;
    let mut out: Vec<String> = Vec::new();
    let n = cs.len();
    assert(string_views(out@) =~= Seq::<Seq<char>>::empty());
    for k in 0..n
        invariant
            n == all.len(),
            all == cs@,
            t == tree@,
            all == t[s as int].children,
            indices_in(t, all),
            string_views(out@) == interfaces_in(t, all.take(k as int)),
    {
        let c = cs[k];
        assert(all.take(k + 1).drop_last() =~= all.take(k as int));
        assert(all.take(k + 1).last() == c);
        if kind_is(tree, c, "type_list") {
            type_list_types_exec(tree, c, &mut out);
        } else {
            assert(string_views(out@) =~= string_views(out@) + Seq::<Seq<char>>::empty());
        }
    }
    assert(all.take(n as int) =~= all);
    out
}

// ---------------------------------------------------------------------------
// Annotations with their elements
// ---------------------------------------------------------------------------

/// One step over the children of an `element_value_pair`: the first
/// identifier names the element; an array takes its first string literal,
/// a literal its text, and any other child without `(`, `)` or `=` in its
/// kind gives the value when none was found yet.
pub open spec fn pair_step(t: Seq<NodeView>, st: (Seq<char>, Seq<char>), c: usize) -> (Seq<char>, Seq<char>) {
    let k = kind_at(t, c);
    if k == "identifier"@ {
        if st.0.len() == 0 {
            (text_at(t, c), st.1)
        } else {
            st
        }
    } else if array_value_kinds().contains(k) {
        match first_child_of_kinds(t, c, seq!["string_literal"@]) {
            Some(x) => (st.0, text_at(t, x)),
            None => st,
        }
    } else if literal_kinds().contains(k) {
        (st.0, text_at(t, c))
    } else if !k.contains('(') && !k.contains(')') && !k.contains('=') {
        if st.1.len() == 0 {
            (st.0, text_at(t, c))
        } else {
            st
        }
    } else {
        st
    }
}

/// The name and value found among the children of an element pair.
pub open spec fn pair_scan(t: Seq<NodeView>, cs: Seq<usize>) -> (Seq<char>, Seq<char>)
    decreases cs.len(),
{
    if cs.len() == 0 {
        (Seq::empty(), Seq::empty())
    } else {
        pair_step(t, pair_scan(t, cs.drop_last()), cs.last())
    }
}

/// A text without surrounding double quotes.
pub open spec fn unquoted(s: Seq<char>) -> Seq<char> {
    trim_by(s, one_of(seq!['"']))
}

/// One step over the children of an annotation's argument list: a named
/// element with a name and a value is recorded under its name, a lone
/// literal or identifier under `value`.
pub open spec fn element_step(t: Seq<NodeView>, e: Seq<(Seq<char>, Seq<char>)>, c: usize) -> Seq<
    (Seq<char>, Seq<char>),
> {
    let k = kind_at(t, c);
    if k == "element_value_pair"@ {
        let st = pair_scan(t, t[c as int].children);
        if st.0.len() > 0 && st.1.len() > 0 {
            insert_entry(e, st.0, unquoted(st.1))
        } else {
            e
        }
    } else if single_value_kinds().contains(k) {
        insert_entry(e, "value"@, unquoted(text_at(t, c)))
    } else {
        e
    }
}

/// The elements recorded from the listed argument nodes.
pub open spec fn elements_scan(t: Seq<NodeView>, cs: Seq<usize>) -> Seq<(Seq<char>, Seq<char>)>
    decreases cs.len(),
{
    if cs.len() == 0 {
        Seq::empty()
    } else {
        element_step(t, elements_scan(t, cs.drop_last()), cs.last())
    }
}

/// The elements of an annotation's argument list.
pub open spec fn annotation_elements(t: Seq<NodeView>, args: usize) -> Seq<(Seq<char>, Seq<char>)> {
    elements_scan(t, t[args as int].children)
}

/// The name of an annotation: its `name` field, or else its first
/// identifier-like child, without leading `@`.
pub open spec fn annotation_name_of(t: Seq<NodeView>, a: usize) -> Seq<char> {
    let raw = match field_child(t, a, "name"@) {
        Some(x) => text_at(t, x),
        None => text_or_empty(t, first_child_of_kinds(t, a, annotation_name_kinds())),
    };
    trim_start_by(raw, one_of(seq!['@']))
}

/// An annotation with its elements, when it has a name.
pub open spec fn detailed_annotation(t: Seq<NodeView>, a: usize) -> Option<AnnotationInfoView> {
    let name = annotation_name_of(t, a);
    if name.len() == 0 {
        None
    } else {
        Some(
            AnnotationInfoView {
                name,
                fqdn: None,
                elements: match field_child(t, a, "arguments"@) {
                    Some(x) => annotation_elements(t, x),
                    None => Seq::empty(),
                },
                position: node_position(t, a),
            },
        )
    }
}

/// The annotations among the children of a `modifiers` node.
pub open spec fn modifier_annotations(t: Seq<NodeView>, cs: Seq<usize>) -> Seq<AnnotationInfoView>
    decreases cs.len(),
{
    if cs.len() == 0 {
        Seq::empty()
    } else {
        modifier_annotations(t, cs.drop_last()) + if annotation_kinds().contains(
            kind_at(t, cs.last()),
        ) {
            opt_seq(detailed_annotation(t, cs.last()))
        } else {
            Seq::empty()
        }
    }
}

/// The annotations a child contributes: itself, or those of a `modifiers`
/// node.
pub open spec fn annotations_at(t: Seq<NodeView>, c: usize) -> Seq<AnnotationInfoView> {
    if annotation_kinds().contains(kind_at(t, c)) {
        opt_seq(detailed_annotation(t, c))
    } else if kind_at(t, c) == "modifiers"@ {
        modifier_annotations(t, t[c as int].children)
    } else {
        Seq::empty()
    }
}

/// The annotations of the listed children.
pub open spec fn annotations_in(t: Seq<NodeView>, cs: Seq<usize>) -> Seq<AnnotationInfoView>
    decreases cs.len(),
{
    if cs.len() == 0 {
        Seq::empty()
    } else {
        annotations_in(t, cs.drop_last()) + annotations_at(t, cs.last())
    }
}

/// The annotations of a declaration.
pub open spec fn annotations_of(t: Seq<NodeView>, n: usize) -> Seq<AnnotationInfoView> {
    annotations_in(t, t[n as int].children)
}

fn pair_scan_exec(tree: &SyntaxTree, p: usize) -> (r: (String, String))
    requires
        p < tree@.len(),
    ensures
        (r.0@, r.1@) == pair_scan(tree@, tree@[p as int].children),
{
    let cs = tree.children(p);
    let ghost all = cs@;
    let ghost t = tree@;
    let arrays = array_value_kind_list();
    let literals = literal_kind_list();
    let strings = one_kind_list("string_literal");
    let mut name = String::new();
    let mut value = String::new();
    let n = cs.len();
    for k in 0..n
        invariant
            n == all.len(),
            all == cs@,
            t == tree@,
            indices_in(t, all),
            str_views(arrays@) == array_value_kinds(),
            str_views(literals@) == literal_kinds(),
            str_views(strings@) == seq!["string_literal"@],
            (name@, value@) == pair_scan(t, all.take(k as int)),
    {
        let c = cs[k];
        assert(all.take(k + 1).drop_last() =~= all.take(k as int));
        assert(all.take(k + 1).last() == c);
        if kind_is(tree, c, "identifier") {
            if name.as_str().is_empty() {
                name = text_string(tree, c);
            }
        } else if tree.kind_is_one_of(c, &arrays) {
            match tree.first_child_of_kinds(c, &strings) {
                Some(x) => {
                    value = text_string(tree, x);
                },
                None => {},
            }
        } else if tree.kind_is_one_of(c, &literals) {
            value = text_string(tree, c);
        } else {
            let kc = chars_of(tree.kind(c));
            if !contains_char(kc.as_slice(), '(') && !contains_char(kc.as_slice(), ')')
                && !contains_char(kc.as_slice(), '=') {
                if value.as_str().is_empty() {
                    value = text_string(tree, c);
                }
            }
        }
    }
    assert(all.take(n as int) =~= all);
    (name, value)
}

/// The elements of an annotation's argument list.
pub fn extract_annotation_elements(tree: &SyntaxTree, args: usize) -> (r: StrMap<String>)
    requires
        args < tree@.len(),
    ensures
        entries_view(r@) == annotation_elements(tree@, args),
{
    let cs = tree.children(args);
    let ghost all = cs@;
    let ghost t = tree@;
    let singles = single_value_kind_list();
    let mut elements: StrMap<String> = StrMap::new();
    let n = cs.len();
    assert(entries_view(elements@) =~= Seq::<(Seq<char>, Seq<char>)>::empty());
    for k in 0..n
        invariant
            n == all.len(),
            all == cs@,
            t == tree@,
            indices_in(t, all),
            str_views(singles@) == single_value_kinds(),
            entries_view(elements@) == elements_scan(t, all.take(k as int)),
    {
        let c = cs[k];
        assert(all.take(k + 1).drop_last() =~= all.take(k as int));
        assert(all.take(k + 1).last() == c);
        let ghost before = elements@;
        if kind_is(tree, c, "element_value_pair") {
            let (name, value) = pair_scan_exec(tree, c);
            if !name.as_str().is_empty() && !value.as_str().is_empty() {
                let cleaned = trim_char(value.as_str(), '"');
                let ghost kv = name@;
                let ghost vv = cleaned;
                elements.insert(name, cleaned);
                proof {
                    lemma_insert_view(before, kv, vv);
                }
            }
        } else if tree.kind_is_one_of(c, &singles) {
            let cleaned = trim_char(tree.text(c), '"');
            let key = own("value");
            let ghost kv = key@;
            let ghost vv = cleaned;
            elements.insert(key, cleaned);
            proof {
                lemma_insert_view(before, kv, vv);
            }
        }
    }
    assert(all.take(n as int) =~= all);
    elements
}

fn annotation_name_exec(tree: &SyntaxTree, a: usize) -> (r: String)
    requires
        a < tree@.len(),
    ensures
        r@ == annotation_name_of(tree@, a),
{
    let raw = match tree.child_by_field_name(a, "name") {
        Some(x) => text_string(tree, x),
        None => match tree.first_child_of_kinds(a, &annotation_name_kind_list()) {
            Some(x) => text_string(tree, x),
            None => String::new(),
        },
    };
    trim_start_char(raw.as_str(), '@')
}

/// An annotation with its elements, when it has a name.
pub fn extract_detailed_annotation(tree: &SyntaxTree, a: usize) -> (r: Option<AnnotationInfo>)
    requires
        a < tree@.len(),
    ensures
        view_opt(r) == detailed_annotation(tree@, a),
{
    let name = annotation_name_exec(tree, a);
    if name.as_str().is_empty() {
        return None;
    }
    let elements = match tree.child_by_field_name(a, "arguments") {
        Some(x) => extract_annotation_elements(tree, x),
        None => {
            let e = StrMap::new();
            assert(entries_view(e@) =~= Seq::<(Seq<char>, Seq<char>)>::empty());
            e
        },
    };
    Some(AnnotationInfo { name, fqdn: None, elements, position: SourcePosition::from_node(tree, a) })
}

fn push_detailed_annotation(tree: &SyntaxTree, a: usize, out: &mut Vec<AnnotationInfo>)
    requires
        a < tree@.len(),
    ensures
        annotation_views(final(out)@) == annotation_views(old(out)@) + opt_seq(
            detailed_annotation(tree@, a),
        ),
{
    let ghost before = out@;
    match extract_detailed_annotation(tree, a) {
        Some(ann) => {
            out.push(ann);
            assert(annotation_views(out@) =~= annotation_views(before) + seq![out@.last()@]);
        },
        None => {
            assert(annotation_views(out@) =~= annotation_views(before) + Seq::<
                AnnotationInfoView,
            >::empty());
        },
    }
}

fn modifier_annotations_exec(tree: &SyntaxTree, m: usize, out: &mut Vec<AnnotationInfo>)
    requires
        m < tree@.len(),
    ensures
        annotation_views(final(out)@) == annotation_views(old(out)@) + modifier_annotations(
            tree@,
            tree@[m as int].children,
        ),
{
    let cs = tree.children(m);
    let ghost all = cs@;
    let ghost t = tree@;
    let ghost start = annotation_views(out@);
    let kinds = annotation_kind_list();
    let n = cs.len();
    assert(start + Seq::<AnnotationInfoView>::empty() =~= start);
    for k in 0..n
        invariant
            n == all.len(),
            all == cs@,
            t == tree@,
            indices_in(t, all),
            str_views(kinds@) == annotation_kinds(),
            annotation_views(out@) == start + modifier_annotations(t, all.take(k as int)),
    {
        let c = cs[k];
        assert(all.take(k + 1).drop_last() =~= all.take(k as int));
        assert(all.take(k + 1).last() == c);
        if tree.kind_is_one_of(c, &kinds) {
            push_detailed_annotation(tree, c, out);
        } else {
            assert(annotation_views(out@) =~= annotation_views(out@) + Seq::<
                AnnotationInfoView,
            >::empty());
        }
        assert(start + modifier_annotations(t, all.take(k + 1)) =~= start + modifier_annotations(
            t,
            all.take(k as int),
        ) + (if annotation_kinds().contains(kind_at(t, c)) {
            opt_seq(detailed_annotation(t, c))
        } else {
            Seq::empty()
        }));
    }
    assert(all.take(n as int) =~= all);
}

/// The annotations of a declaration, directly under it or in its modifiers.
pub fn extract_annotations_from_node(tree: &SyntaxTree, node: usize) -> (r: Vec<AnnotationInfo>)
    requires
        node < tree@.len(),
    ensures
        annotation_views(r@) == annotations_of(tree@, node),
{
    let cs = tree.children(node);
    let ghost all = cs@;
    let ghost t = tree@;
    let kinds = annotation_kind_list();
    let mut out: Vec<AnnotationInfo> = Vec::new();
    let n = cs.len();
    assert(annotation_views(out@) =~= Seq::<AnnotationInfoView>::empty());
    for k in 0..n
        invariant
            n == all.len(),
            all == cs@,
            t == tree@,
            indices_in(t, all),
            str_views(kinds@) == annotation_kinds(),
            annotation_views(out@) == annotations_in(t, all.take(k as int)),
    {
        let c = cs[k];
        assert(all.take(k + 1).drop_last() =~= all.take(k as int));
        assert(all.take(k + 1).last() == c);
        let ghost before = annotation_views(out@);
        if tree.kind_is_one_of(c, &kinds) {
            push_detailed_annotation(tree, c, &mut out);
        } else if kind_is(tree, c, "modifiers") {
            modifier_annotations_exec(tree, c, &mut out);
        } else {
            assert(annotation_views(out@) =~= annotation_views(out@) + Seq::<
                AnnotationInfoView,
            >::empty());
        }
        assert(annotations_in(t, all.take(k + 1)) == annotations_in(t, all.take(k as int))
            + annotations_at(t, c));
    }
    assert(all.take(n as int) =~= all);
    out
}

// ---------------------------------------------------------------------------
// Fields, parameters, methods and constructors
// ---------------------------------------------------------------------------

/// One step over the children of a field declaration: the first plain
/// type gives the type (the base of a generic type overrides it), the first
/// identifier of a declarator gives the name (a later declarator's wins).
pub open spec fn field_step(t: Seq<NodeView>, st: (Seq<char>, Seq<char>), c: usize) -> (Seq<char>, Seq<char>) {
    let k = kind_at(t, c);
    if field_type_kinds().contains(k) {
        if st.0.len() == 0 {
            (text_at(t, c), st.1)
        } else {
            st
        }
    } else if k == "generic_type"@ {
        match generic_base(t, c) {
            Some(b) => (text_at(t, b), st.1),
            None => st,
        }
    } else if k == "variable_declarator"@ {
        match first_child_of_kinds(t, c, seq!["identifier"@]) {
            Some(x) => (st.0, text_at(t, x)),
            None => st,
        }
    } else {
        st
    }
}

/// Type and name found among the listed children.
pub open spec fn field_scan(t: Seq<NodeView>, cs: Seq<usize>) -> (Seq<char>, Seq<char>)
    decreases cs.len(),
{
    if cs.len() == 0 {
        (Seq::empty(), Seq::empty())
    } else {
        field_step(t, field_scan(t, cs.drop_last()), cs.last())
    }
}

/// A field declaration with both a type and a name.
pub open spec fn field_info(t: Seq<NodeView>, f: usize) -> Option<FieldInfoView> {
    let st = field_scan(t, t[f as int].children);
    if st.0.len() > 0 && st.1.len() > 0 {
        Some(
            FieldInfoView {
                name: st.1,
                type_name_: st.0,
                annotations: annotations_of(t, f),
                position: node_position(t, f),
            },
        )
    } else {
        None
    }
}

/// One step over the children of a formal parameter: the first plain type
/// (or base of a generic type) and the first identifier.
pub open spec fn param_step(t: Seq<NodeView>, st: (Seq<char>, Seq<char>), c: usize) -> (Seq<char>, Seq<char>) {
    let k = kind_at(t, c);
    if param_type_kinds().contains(k) {
        if st.0.len() == 0 {
            (text_at(t, c), st.1)
        } else {
            st
        }
    } else if k == "generic_type"@ {
        if st.0.len() == 0 {
            match generic_base(t, c) {
                Some(b) => (text_at(t, b), st.1),
                None => st,
            }
        } else {
            st
        }
    } else if k == "identifier"@ {
        if st.1.len() == 0 {
            (st.0, text_at(t, c))
        } else {
            st
        }
    } else {
        st
    }
}

/// Type and name found among the listed children of a parameter.
pub open spec fn param_scan(t: Seq<NodeView>, cs: Seq<usize>) -> (Seq<char>, Seq<char>)
    decreases cs.len(),
{
    if cs.len() == 0 {
        (Seq::empty(), Seq::empty())
    } else {
        param_step(t, param_scan(t, cs.drop_last()), cs.last())
    }
}

/// The (name, type) of a formal parameter that has both.
pub open spec fn param_of(t: Seq<NodeView>, p: usize) -> Seq<(Seq<char>, Seq<char>)> {
    let st = param_scan(t, t[p as int].children);
    if st.0.len() > 0 && st.1.len() > 0 {
        seq![(st.1, st.0)]
    } else {
        Seq::empty()
    }
}

/// The parameters among the listed children of a parameter list.
pub open spec fn params_in(t: Seq<NodeView>, cs: Seq<usize>) -> Seq<(Seq<char>, Seq<char>)>
    decreases cs.len(),
{
    if cs.len() == 0 {
        Seq::empty()
    } else {
        params_in(t, cs.drop_last()) + if kind_at(t, cs.last()) == "formal_parameter"@ {
            param_of(t, cs.last())
        } else {
            Seq::empty()
        }
    }
}

/// The parameters of a `formal_parameters` node.
pub open spec fn parameters_of(t: Seq<NodeView>, fp: usize) -> Seq<(Seq<char>, Seq<char>)> {
    params_in(t, t[fp as int].children)
}

/// Name, return type and parameters of a method.
pub type MethodParts = (Seq<char>, Seq<char>, Seq<(Seq<char>, Seq<char>)>);

/// One step over the children of a method declaration: the first
/// identifier names it, the first type (or base of a generic type) is its
/// return type, and a parameter list gives its parameters.
pub open spec fn method_step(t: Seq<NodeView>, st: MethodParts, c: usize) -> MethodParts {
    let k = kind_at(t, c);
    if k == "identifier"@ {
        if st.0.len() == 0 {
            (text_at(t, c), st.1, st.2)
        } else {
            st
        }
    } else if return_type_kinds().contains(k) {
        if st.1.len() == 0 {
            (st.0, text_at(t, c), st.2)
        } else {
            st
        }
    } else if k == "generic_type"@ {
        if st.1.len() == 0 {
            match generic_base(t, c) {
                Some(b) => (st.0, text_at(t, b), st.2),
                None => st,
            }
        } else {
            st
        }
    } else if k == "formal_parameters"@ {
        (st.0, st.1, parameters_of(t, c))
    } else {
        st
    }
}

/// The parts found among the listed children of a method.
pub open spec fn method_scan(t: Seq<NodeView>, cs: Seq<usize>) -> MethodParts
    decreases cs.len(),
{
    if cs.len() == 0 {
        (Seq::empty(), Seq::empty(), Seq::empty())
    } else {
        method_step(t, method_scan(t, cs.drop_last()), cs.last())
    }
}

/// A method declaration that has a name.
pub open spec fn method_info(t: Seq<NodeView>, m: usize) -> Option<MethodInfoView> {
    let st = method_scan(t, t[m as int].children);
    if st.0.len() > 0 {
        Some(
            MethodInfoView {
                name: st.0,
                return_type: st.1,
                parameters: st.2,
                annotations: annotations_of(t, m),
                position: node_position(t, m),
            },
        )
    } else {
        None
    }
}

/// The parameters of the last parameter list among the listed children.
pub open spec fn constructor_params(t: Seq<NodeView>, cs: Seq<usize>) -> Seq<(Seq<char>, Seq<char>)>
    decreases cs.len(),
{
    if cs.len() == 0 {
        Seq::empty()
    } else if kind_at(t, cs.last()) == "formal_parameters"@ {
        parameters_of(t, cs.last())
    } else {
        constructor_params(t, cs.drop_last())
    }
}

/// A constructor, recorded as a method named after its class with an empty
/// return type.
pub open spec fn constructor_info(t: Seq<NodeView>, c: usize, class_name: Seq<char>) -> MethodInfoView {
    MethodInfoView {
        name: class_name,
        return_type: Seq::empty(),
        parameters: constructor_params(t, t[c as int].children),
        annotations: annotations_of(t, c),
        position: node_position(t, c),
    }
}

/// A field declaration with both a type and a name.
pub fn extract_field_info(tree: &SyntaxTree, f: usize) -> (r: Option<FieldInfo>)
    requires
        f < tree@.len(),
    ensures
        view_opt(r) == field_info(tree@, f),
{
    let annotations = extract_annotations_from_node(tree, f);
    let cs = tree.children(f);
    let ghost all = cs@;
    let ghost t = tree@;
    let types = field_type_kind_list();
    let idents = one_kind_list("identifier");
    let mut field_type = String::new();
    let mut name = String::new();
    let n = cs.len();
    for k in 0..n
        invariant
            n == all.len(),
            all == cs@,
            t == tree@,
            indices_in(t, all),
            str_views(types@) == field_type_kinds(),
            str_views(idents@) == seq!["identifier"@],
            (field_type@, name@) == field_scan(t, all.take(k as int)),
    {
        let c = cs[k];
        assert(all.take(k + 1).drop_last() =~= all.take(k as int));
        assert(all.take(k + 1).last() == c);
        if tree.kind_is_one_of(c, &types) {
            if field_type.as_str().is_empty() {
                field_type = text_string(tree, c);
            }
        } else if kind_is(tree, c, "generic_type") {
            match generic_base_exec(tree, c) {
                Some(b) => {
                    field_type = text_string(tree, b);
                },
                None => {},
            }
        } else if kind_is(tree, c, "variable_declarator") {
            match tree.first_child_of_kinds(c, &idents) {
                Some(x) => {
                    name = text_string(tree, x);
                },
                None => {},
            }
        }
    }
    assert(all.take(n as int) =~= all);
    if !field_type.as_str().is_empty() && !name.as_str().is_empty() {
        Some(FieldInfo { name, type_name_: field_type, annotations, position: SourcePosition::from_node(tree, f) })
    } else {
        None
    }
}

fn param_of_exec(tree: &SyntaxTree, p: usize, out: &mut Vec<(String, String)>)
    requires
        p < tree@.len(),
    ensures
        pair_views(final(out)@) == pair_views(old(out)@) + param_of(tree@, p),
{
    let cs = tree.children(p);
    let ghost all = cs@;
    let ghost t = tree@;
    let types = param_type_kind_list();
    let mut ptype = String::new();
    let mut pname = String::new();
    let n = cs.len();
    for k in 0..n
        invariant
            n == all.len(),
            all == cs@,
            t == tree@,
            indices_in(t, all),
            str_views(types@) == param_type_kinds(),
            (ptype@, pname@) == param_scan(t, all.take(k as int)),
    {
        let c = cs[k];
        assert(all.take(k + 1).drop_last() =~= all.take(k as int));
        assert(all.take(k + 1).last() == c);
        if tree.kind_is_one_of(c, &types) {
            if ptype.as_str().is_empty() {
                ptype = text_string(tree, c);
            }
        } else if kind_is(tree, c, "generic_type") {
            if ptype.as_str().is_empty() {
                match generic_base_exec(tree, c) {
                    Some(b) => {
                        ptype = text_string(tree, b);
                    },
                    None => {},
                }
            }
        } else if kind_is(tree, c, "identifier") {
            if pname.as_str().is_empty() {
                pname = text_string(tree, c);
            }
        }
    }
    assert(all.take(n as int) =~= all);
    let ghost before = out@;
    if !ptype.as_str().is_empty() && !pname.as_str().is_empty() {
        let ghost pv = (pname@, ptype@);
        out.push((pname, ptype));
        assert(pair_views(out@) =~= pair_views(before) + seq![pv]);
    } else {
        assert(pair_views(out@) =~= pair_views(before) + Seq::<(Seq<char>, Seq<char>)>::empty());
    }
}

/// The parameters of a `formal_parameters` node, as (name, type) pairs.
pub fn extract_parameters(tree: &SyntaxTree, fp: usize) -> (r: Vec<(String, String)>)
    requires
        fp < tree@.len(),
    ensures
        pair_views(r@) == parameters_of(tree@, fp),
{
    let cs = tree.children(fp);
    let ghost all = cs@;
    let ghost t = tree@;
    let mut out: Vec<(String, String)> = Vec::new();
    let n = cs.len();
    assert(pair_views(out@) =~= Seq::<(Seq<char>, Seq<char>)>::empty());
    for k in 0..n
        invariant
            n == all.len(),
            all == cs@,
            t == tree@,
            indices_in(t, all),
            pair_views(out@) == params_in(t, all.take(k as int)),
    {
        let c = cs[k];
        assert(all.take(k + 1).drop_last() =~= all.take(k as int));
        assert(all.take(k + 1).last() == c);
        if kind_is(tree, c, "formal_parameter") {
            param_of_exec(tree, c, &mut out);
        } else {
            assert(pair_views(out@) =~= pair_views(out@) + Seq::<(Seq<char>, Seq<char>)>::empty());
        }
    }
    assert(all.take(n as int) =~= all);
    out
}

/// A method declaration that has a name.
pub fn extract_method_info(tree: &SyntaxTree, m: usize) -> (r: Option<MethodInfo>)
    requires
        m < tree@.len(),
    ensures
        view_opt(r) == method_info(tree@, m),
{
    let annotations = extract_annotations_from_node(tree, m);
    let cs = tree.children(m);
    let ghost all = cs@;
    let ghost t = tree@;
    let return_kinds = return_type_kind_list();
    let mut name = String::new();
    let mut return_type = String::new();
    let mut parameters: Vec<(String, String)> = Vec::new();
    let n = cs.len();
    assert(pair_views(parameters@) =~= Seq::<(Seq<char>, Seq<char>)>::empty());
    for k in 0..n
        invariant
            n == all.len(),
            all == cs@,
            t == tree@,
            indices_in(t, all),
            str_views(return_kinds@) == return_type_kinds(),
            (name@, return_type@, pair_views(parameters@)) == method_scan(t, all.take(k as int)),
    {
        let c = cs[k];
        assert(all.take(k + 1).drop_last() =~= all.take(k as int));
        assert(all.take(k + 1).last() == c);
        if kind_is(tree, c, "identifier") {
            if name.as_str().is_empty() {
                name = text_string(tree, c);
            }
        } else if tree.kind_is_one_of(c, &return_kinds) {
            if return_type.as_str().is_empty() {
                return_type = text_string(tree, c);
            }
        } else if kind_is(tree, c, "generic_type") {
            if return_type.as_str().is_empty() {
                match generic_base_exec(tree, c) {
                    Some(b) => {
                        return_type = text_string(tree, b);
                    },
                    None => {},
                }
            }
        } else if kind_is(tree, c, "formal_parameters") {
            parameters = extract_parameters(tree, c);
        }
    }
    assert(all.take(n as int) =~= all);
    if !name.as_str().is_empty() {
        Some(MethodInfo { name, return_type, parameters, annotations, position: SourcePosition::from_node(tree, m) })
    } else {
        None
    }
}

/// A constructor, recorded as a method named after its class.
pub fn extract_constructor_info(tree: &SyntaxTree, c: usize, class_name: &str) -> (r: MethodInfo)
    requires
        c < tree@.len(),
    ensures
        r@ == constructor_info(tree@, c, class_name@),
{
    let annotations = extract_annotations_from_node(tree, c);
    let cs = tree.children(c);
    let ghost all = cs@;
    let ghost t = tree@;
    let mut parameters: Vec<(String, String)> = Vec::new();
    let n = cs.len();
    assert(pair_views(parameters@) =~= Seq::<(Seq<char>, Seq<char>)>::empty());
    for k in 0..n
        invariant
            n == all.len(),
            all == cs@,
            t == tree@,
            indices_in(t, all),
            pair_views(parameters@) == constructor_params(t, all.take(k as int)),
    {
        let x = cs[k];
        assert(all.take(k + 1).drop_last() =~= all.take(k as int));
        assert(all.take(k + 1).last() == x);
        if kind_is(tree, x, "formal_parameters") {
            parameters = extract_parameters(tree, x);
        }
    }
    assert(all.take(n as int) =~= all);
    MethodInfo {
        name: own(class_name),
        return_type: String::new(),
        parameters,
        annotations,
        position: SourcePosition::from_node(tree, c),
    }
}

// ---------------------------------------------------------------------------
// Classes, interfaces and enums
// ---------------------------------------------------------------------------

/// Methods and fields gathered from a type body.
pub type Members = (Seq<MethodInfoView>, Seq<FieldInfoView>);

/// One step over the members of a body: fields and methods with a name are
/// added, constructors are added as methods named after the class.
pub open spec fn member_step(t: Seq<NodeView>, st: Members, m: usize, class_name: Seq<char>) -> Members {
    let k = kind_at(t, m);
    if k == "field_declaration"@ {
        (st.0, st.1 + opt_seq(field_info(t, m)))
    } else if k == "method_declaration"@ {
        (st.0 + opt_seq(method_info(t, m)), st.1)
    } else if k == "constructor_declaration"@ {
        (st.0.push(constructor_info(t, m, class_name)), st.1)
    } else {
        st
    }
}

/// The members gathered from the listed nodes, after those already found.
pub open spec fn members_scan(t: Seq<NodeView>, cs: Seq<usize>, st: Members, class_name: Seq<char>) -> Members
    decreases cs.len(),
{
    if cs.len() == 0 {
        st
    } else {
        member_step(t, members_scan(t, cs.drop_last(), st, class_name), cs.last(), class_name)
    }
}

/// Name, superclass, interfaces, methods and fields of a type declaration.
pub struct ClassParts {
    pub name: Seq<char>,
    pub extends: Option<Seq<char>>,
    pub implements: Seq<Seq<char>>,
    pub methods: Seq<MethodInfoView>,
    pub fields: Seq<FieldInfoView>,
}

/// One step over the children of a type declaration.
pub open spec fn class_step(t: Seq<NodeView>, st: ClassParts, c: usize) -> ClassParts {
    let k = kind_at(t, c);
    if k == "identifier"@ {
        if st.name.len() == 0 {
            ClassParts { name: text_at(t, c), ..st }
        } else {
            st
        }
    } else if k == "superclass"@ {
        ClassParts { extends: superclass_type(t, c), ..st }
    } else if k == "super_interfaces"@ {
        ClassParts { implements: interface_types(t, c), ..st }
    } else if body_kinds().contains(k) {
        let m = members_scan(t, t[c as int].children, (st.methods, st.fields), st.name);
        ClassParts { methods: m.0, fields: m.1, ..st }
    } else {
        st
    }
}

/// The parts found among the listed children of a type declaration.
pub open spec fn class_scan(t: Seq<NodeView>, cs: Seq<usize>) -> ClassParts
    decreases cs.len(),
{
    if cs.len() == 0 {
        ClassParts {
            name: Seq::empty(),
            extends: None,
            implements: Seq::empty(),
            methods: Seq::empty(),
            fields: Seq::empty(),
        }
    } else {
        class_step(t, class_scan(t, cs.drop_last()), cs.last())
    }
}

/// The qualified name of a type in a package (its simple name without one).
pub open spec fn qualified(package: Option<Seq<char>>, name: Seq<char>) -> Seq<char> {
    match package {
        Some(p) => p + "."@ + name,
        None => name,
    }
}

/// A class, interface or enum declaration.
pub open spec fn class_info(
    t: Seq<NodeView>,
    n: usize,
    package: Option<Seq<char>>,
    is_interface: bool,
    is_enum: bool,
) -> ClassInfoView {
    let st = class_scan(t, t[n as int].children);
    ClassInfoView {
        simple_name: st.name,
        fqdn: qualified(package, st.name),
        extends: st.extends,
        implements: st.implements,
        methods: st.methods,
        fields: st.fields,
        annotations: annotations_of(t, n),
        is_interface,
        is_enum,
        position: node_position(t, n),
    }
}

fn members_exec(
    tree: &SyntaxTree,
    body: usize,
    class_name: &String,
    methods: &mut Vec<MethodInfo>,
    fields: &mut Vec<FieldInfo>,
)
    requires
        body < tree@.len(),
    ensures
        (method_views(final(methods)@), field_views(final(fields)@)) == members_scan(
            tree@,
            tree@[body as int].children,
            (method_views(old(methods)@), field_views(old(fields)@)),
            class_name@,
        ),
{
    let cs = tree.children(body);
    let ghost all = cs@;
    let ghost t = tree@;
    let ghost start = (method_views(methods@), field_views(fields@));
    let n = cs.len();
    for k in 0..n
        invariant
            n == all.len(),
            all == cs@,
            t == tree@,
            indices_in(t, all),
            (method_views(methods@), field_views(fields@)) == members_scan(
                t,
                all.take(k as int),
                start,
                class_name@,
            ),
    {
        let m = cs[k];
        assert(all.take(k + 1).drop_last() =~= all.take(k as int));
        assert(all.take(k + 1).last() == m);
        let ghost mb = methods@;
        let ghost fb = fields@;
        if kind_is(tree, m, "field_declaration") {
            match extract_field_info(tree, m) {
                Some(f) => {
                    fields.push(f);
                    assert(field_views(fields@) =~= field_views(fb) + seq![fields@.last()@]);
                },
                None => {
                    assert(field_views(fields@) =~= field_views(fb) + Seq::<FieldInfoView>::empty());
                },
            }
        } else if kind_is(tree, m, "method_declaration") {
            match extract_method_info(tree, m) {
                Some(x) => {
                    methods.push(x);
                    assert(method_views(methods@) =~= method_views(mb) + seq![methods@.last()@]);
                },
                None => {
                    assert(method_views(methods@) =~= method_views(mb) + Seq::<
                        MethodInfoView,
                    >::empty());
                },
            }
        } else if kind_is(tree, m, "constructor_declaration") {
            let ctor = extract_constructor_info(tree, m, class_name.as_str());
            methods.push(ctor);
            assert(method_views(methods@) =~= method_views(mb).push(methods@.last()@));
        }
    }
    assert(all.take(n as int) =~= all);
}

/// A class, interface or enum declaration.
pub fn extract_class_info(
    tree: &SyntaxTree,
    node: usize,
    package_name: &Option<String>,
    is_interface: bool,
    is_enum: bool,
) -> (r: ClassInfo)
    requires
        node < tree@.len(),
    ensures
        r@ == class_info(tree@, node, opt_view(*package_name), is_interface, is_enum),
{
    let annotations = extract_annotations_from_node(tree, node);
    let cs = tree.children(node);
    let ghost all = cs@;
    let ghost t = tree@;
    let bodies = body_kind_list();
    let mut simple_name = String::new();
    let mut extends: Option<String> = None;
    let mut implements: Vec<String> = Vec::new();
    let mut methods: Vec<MethodInfo> = Vec::new();
    let mut fields: Vec<FieldInfo> = Vec::new();
    let n = cs.len();
    assert(string_views(implements@) =~= Seq::<Seq<char>>::empty());
    assert(method_views(methods@) =~= Seq::<MethodInfoView>::empty());
    assert(field_views(fields@) =~= Seq::<FieldInfoView>::empty());
    for k in 0..n
        invariant
            n == all.len(),
            all == cs@,
            t == tree@,
            indices_in(t, all),
            str_views(bodies@) == body_kinds(),
            class_scan(t, all.take(k as int)) == (ClassParts {
                name: simple_name@,
                extends: opt_view(extends),
                implements: string_views(implements@),
                methods: method_views(methods@),
                fields: field_views(fields@),
            }),
    {
        let c = cs[k];
        assert(all.take(k + 1).drop_last() =~= all.take(k as int));
        assert(all.take(k + 1).last() == c);
        if kind_is(tree, c, "identifier") {
            if simple_name.as_str().is_empty() {
                simple_name = text_string(tree, c);
            }
        } else if kind_is(tree, c, "superclass") {
            extends = superclass_type_exec(tree, c);
        } else if kind_is(tree, c, "super_interfaces") {
            implements = interface_types_exec(tree, c);
        } else if tree.kind_is_one_of(c, &bodies) {
            members_exec(tree, c, &simple_name, &mut methods, &mut fields);
        }
    }
    assert(all.take(n as int) =~= all);
    let fqdn = match package_name {
        Some(pkg) => concat3(pkg.as_str(), ".", simple_name.as_str()),
        None => simple_name.clone(),
    };
    ClassInfo {
        simple_name,
        fqdn,
        extends,
        implements,
        methods,
        fields,
        annotations,
        is_interface,
        is_enum,
        position: SourcePosition::from_node(tree, node),
    }
}

/// The declarations of the listed nodes, each entered under its simple
/// name after those already there (a later one with the same name replaces
/// an earlier one in place).
pub open spec fn classes_scan(
    t: Seq<NodeView>,
    ns: Seq<usize>,
    package: Option<Seq<char>>,
    is_interface: bool,
    is_enum: bool,
    acc: Seq<(Seq<char>, ClassInfoView)>,
) -> Seq<(Seq<char>, ClassInfoView)>
    decreases ns.len(),
{
    if ns.len() == 0 {
        acc
    } else {
        let prev = classes_scan(t, ns.drop_last(), package, is_interface, is_enum, acc);
        let ci = class_info(t, ns.last(), package, is_interface, is_enum);
        insert_entry(prev, ci.simple_name, ci)
    }
}

/// The classes, then interfaces, then enums of a file, by simple name.
pub open spec fn file_classes(t: Seq<NodeView>, package: Option<Seq<char>>) -> Seq<(Seq<char>, ClassInfoView)> {
    let c = classes_scan(t, nodes_of_kind(t, "class_declaration"@), package, false, false, Seq::empty());
    let i = classes_scan(t, nodes_of_kind(t, "interface_declaration"@), package, true, false, c);
    classes_scan(t, nodes_of_kind(t, "enum_declaration"@), package, false, true, i)
}

fn add_classes(
    tree: &SyntaxTree,
    kind: &str,
    package_name: &Option<String>,
    is_interface: bool,
    is_enum: bool,
    classes: &mut StrMap<ClassInfo>,
)
    ensures
        entries_view(final(classes)@) == classes_scan(
            tree@,
            nodes_of_kind(tree@, kind@),
            opt_view(*package_name),
            is_interface,
            is_enum,
            entries_view(old(classes)@),
        ),
{
    let ns = tree.find_nodes_by_kind(kind);
    let ghost all = ns@;
    let ghost t = tree@;
    let ghost start = entries_view(classes@);
    let n = ns.len();
    for k in 0..n
        invariant
            n == all.len(),
            all == ns@,
            t == tree@,
            indices_in(t, all),
            entries_view(classes@) == classes_scan(
                t,
                all.take(k as int),
                opt_view(*package_name),
                is_interface,
                is_enum,
                start,
            ),
    {
        let x = ns[k];
        assert(all.take(k + 1).drop_last() =~= all.take(k as int));
        assert(all.take(k + 1).last() == x);
        let ci = extract_class_info(tree, x, package_name, is_interface, is_enum);
        let key = ci.simple_name.clone();
        let ghost before = classes@;
        let ghost kv = key@;
        let ghost cv = ci;
        classes.insert(key, ci);
        proof {
            lemma_insert_view(before, kv, cv);
        }
    }
    assert(all.take(n as int) =~= all);
}

/// The classes, interfaces and enums of a file, by simple name.
pub fn extract_classes(tree: &SyntaxTree, package_name: &Option<String>) -> (r: StrMap<ClassInfo>)
    ensures
        entries_view(r@) == file_classes(tree@, opt_view(*package_name)),
{
    let mut classes: StrMap<ClassInfo> = StrMap::new();
    assert(entries_view(classes@) =~= Seq::<(Seq<char>, ClassInfoView)>::empty());
    add_classes(tree, "class_declaration", package_name, false, false, &mut classes);
    add_classes(tree, "interface_declaration", package_name, true, false, &mut classes);
    add_classes(tree, "enum_declaration", package_name, false, true, &mut classes);
    classes
}

// ---------------------------------------------------------------------------
// Package and imports
// ---------------------------------------------------------------------------

/// The name in the first package declaration.
pub open spec fn package_name(t: Seq<NodeView>) -> Option<Seq<char>> {
    let ps = nodes_of_kind(t, "package_declaration"@);
    if ps.len() == 0 {
        None
    } else {
        opt_text(t, first_child_of_kinds(t, ps[0], qualified_name_kinds()))
    }
}

/// The package declared by a file.
pub fn extract_package(tree: &SyntaxTree) -> (r: Option<String>)
    ensures
        opt_view(r) == package_name(tree@),
{
    let ps = tree.find_nodes_by_kind("package_declaration");
    if ps.len() == 0 {
        return None;
    }
    match tree.first_child_of_kinds(ps[0], &qualified_name_kind_list()) {
        Some(x) => Some(text_string(tree, x)),
        None => None,
    }
}

/// One step over the children of an import: an asterisk makes it a
/// wildcard import; the last name child gives the imported path.
pub open spec fn import_step(t: Seq<NodeView>, st: (bool, Seq<char>), c: usize) -> (bool, Seq<char>) {
    if kind_at(t, c) == "asterisk"@ {
        (true, st.1)
    } else if qualified_name_kinds().contains(kind_at(t, c)) {
        (st.0, text_at(t, c))
    } else {
        st
    }
}

/// Whether an import is a wildcard one, and its path.
pub open spec fn import_scan(t: Seq<NodeView>, cs: Seq<usize>) -> (bool, Seq<char>)
    decreases cs.len(),
{
    if cs.len() == 0 {
        (false, Seq::empty())
    } else {
        import_step(t, import_scan(t, cs.drop_last()), cs.last())
    }
}

/// The last dot-separated piece of a path.
pub open spec fn last_segment(path: Seq<char>) -> Seq<char> {
    split_char(path, '.').last()
}

/// Explicit imports (simple name to path) and wildcard imports (packages).
pub type Imports = (Seq<(Seq<char>, Seq<char>)>, Seq<Seq<char>>);

/// The imports of the listed import declarations: a wildcard import adds
/// its path to the packages, another one with a path enters the path
/// under its last piece.
pub open spec fn imports_scan(t: Seq<NodeView>, ns: Seq<usize>) -> Imports
    decreases ns.len(),
{
    if ns.len() == 0 {
        (Seq::empty(), Seq::empty())
    } else {
        let prev = imports_scan(t, ns.drop_last());
        let st = import_scan(t, t[ns.last() as int].children);
        if st.0 {
            (prev.0, prev.1.push(st.1))
        } else if st.1.len() > 0 {
            (insert_entry(prev.0, last_segment(st.1), st.1), prev.1)
        } else {
            prev
        }
    }
}

/// The imports of a file.
pub open spec fn file_imports(t: Seq<NodeView>) -> Imports {
    imports_scan(t, nodes_of_kind(t, "import_declaration"@))
}

fn import_scan_exec(tree: &SyntaxTree, i: usize) -> (r: (bool, String))
    requires
        i < tree@.len(),
    ensures
        (r.0, r.1@) == import_scan(tree@, tree@[i as int].children),
{
    let cs = tree.children(i);
    let ghost all = cs@;
    let ghost t = tree@;
    let names = qualified_name_kind_list();
    let mut has_asterisk = false;
    let mut path = String::new();
    let n = cs.len();
    for k in 0..n
        invariant
            n == all.len(),
            all == cs@,
            t == tree@,
            indices_in(t, all),
            str_views(names@) == qualified_name_kinds(),
            (has_asterisk, path@) == import_scan(t, all.take(k as int)),
    {
        let c = cs[k];
        assert(all.take(k + 1).drop_last() =~= all.take(k as int));
        assert(all.take(k + 1).last() == c);
        if kind_is(tree, c, "asterisk") {
            has_asterisk = true;
        } else if tree.kind_is_one_of(c, &names) {
            path = text_string(tree, c);
        }
    }
    assert(all.take(n as int) =~= all);
    (has_asterisk, path)
}

/// The explicit imports (simple name to path) and wildcard imports of a file.
pub fn extract_imports(tree: &SyntaxTree) -> (r: (StrMap<String>, Vec<String>))
    ensures
        (entries_view(r.0@), string_views(r.1@)) == file_imports(tree@),
{
    let ns = tree.find_nodes_by_kind("import_declaration");
    let ghost all = ns@;
    let ghost t = tree@;
    let mut explicit: StrMap<String> = StrMap::new();
    let mut wildcard: Vec<String> = Vec::new();
    let n = ns.len();
    assert(entries_view(explicit@) =~= Seq::<(Seq<char>, Seq<char>)>::empty());
    assert(string_views(wildcard@) =~= Seq::<Seq<char>>::empty());
    for k in 0..n
        invariant
            n == all.len(),
            all == ns@,
            t == tree@,
            indices_in(t, all),
            (entries_view(explicit@), string_views(wildcard@)) == imports_scan(t, all.take(k as int)),
    {
        let x = ns[k];
        assert(all.take(k + 1).drop_last() =~= all.take(k as int));
        assert(all.take(k + 1).last() == x);
        let (has_asterisk, path) = import_scan_exec(tree, x);
        if has_asterisk {
            let ghost before = wildcard@;
            wildcard.push(path);
            assert(string_views(wildcard@) =~= string_views(before).push(wildcard@.last()@));
        } else if !path.as_str().is_empty() {
            let pieces = split_on_char(path.as_str(), '.');
            let ghost pv = pieces@.map_values(|p: String| p@);
            proof {
                crate::text::lemma_split_char_nonempty(path@, '.');
            }
            let last = pieces.len() - 1;
            assert(pv[last as int] == pieces@[last as int]@);
            let simple = pieces[last].clone();
            let ghost before = explicit@;
            let ghost kv = simple@;
            let ghost vv = path;
            explicit.insert(simple, path);
            proof {
                lemma_insert_view(before, kv, vv);
            }
        }
    }
    assert(all.take(n as int) =~= all);
    (explicit, wildcard)
}

// ---------------------------------------------------------------------------
// Calls, annotation uses and local variables
// ---------------------------------------------------------------------------

/// A method invocation: its `name` field (or else its first identifier)
/// and its `object` field as the receiver; none without a name.
pub open spec fn method_call_info(t: Seq<NodeView>, n: usize) -> Option<MethodCallView> {
    let named = text_or_empty(t, field_child(t, n, "name"@));
    let name = if named.len() == 0 {
        text_or_empty(t, first_child_of_kinds(t, n, seq!["identifier"@]))
    } else {
        named
    };
    if name.len() > 0 {
        Some(
            MethodCallView {
                method_name: name,
                receiver_type: opt_text(t, field_child(t, n, "object"@)),
                position: node_position(t, n),
            },
        )
    } else {
        None
    }
}

/// The calls found at the listed nodes.
pub open spec fn method_calls_in(t: Seq<NodeView>, ns: Seq<usize>) -> Seq<MethodCallView>
    decreases ns.len(),
{
    if ns.len() == 0 {
        Seq::empty()
    } else {
        method_calls_in(t, ns.drop_last()) + opt_seq(method_call_info(t, ns.last()))
    }
}

/// The method invocations of a file, in preorder.
pub open spec fn file_method_calls(t: Seq<NodeView>) -> Seq<MethodCallView> {
    method_calls_in(t, nodes_of_kind(t, "method_invocation"@))
}

/// A `new` expression: the type under its `type` field (or else its first
/// type identifier); none without a type.
pub open spec fn constructor_call_info(t: Seq<NodeView>, n: usize) -> Option<ConstructorCallView> {
    let typed = match field_child(t, n, "type"@) {
        Some(x) => type_name_of(t, x),
        None => Seq::empty(),
    };
    let ty = if typed.len() == 0 {
        text_or_empty(t, first_child_of_kinds(t, n, seq!["type_identifier"@]))
    } else {
        typed
    };
    if ty.len() > 0 {
        Some(ConstructorCallView { type_name_: ty, resolved_type: None, position: node_position(t, n) })
    } else {
        None
    }
}

/// The `new` expressions found at the listed nodes.
pub open spec fn constructor_calls_in(t: Seq<NodeView>, ns: Seq<usize>) -> Seq<ConstructorCallView>
    decreases ns.len(),
{
    if ns.len() == 0 {
        Seq::empty()
    } else {
        constructor_calls_in(t, ns.drop_last()) + opt_seq(constructor_call_info(t, ns.last()))
    }
}

/// The `new` expressions of a file, in preorder.
pub open spec fn file_constructor_calls(t: Seq<NodeView>) -> Seq<ConstructorCallView> {
    constructor_calls_in(t, nodes_of_kind(t, "object_creation_expression"@))
}

/// The name of a type declaration: its first identifier child.
pub open spec fn class_name_of(t: Seq<NodeView>, c: usize) -> Option<Seq<char>> {
    opt_text(t, first_child_of_kinds(t, c, seq!["identifier"@]))
}

/// The name of the nearest enclosing type declaration.
pub open spec fn containing_class(t: Seq<NodeView>, n: usize) -> Option<Seq<char>> {
    match nearest_ancestor(t, n, class_kinds()) {
        Some(a) => class_name_of(t, a),
        None => None,
    }
}

/// The enclosing class and name of a method declaration.
pub open spec fn method_context(t: Seq<NodeView>, m: usize) -> Option<(Seq<char>, Seq<char>)> {
    match field_child(t, m, "name"@) {
        None => None,
        Some(x) => match containing_class(t, m) {
            Some(c) => Some((c, text_at(t, x))),
            None => None,
        },
    }
}

/// The declared name of a field: the first identifier of its last
/// declarator that has one.
pub open spec fn declarator_name_scan(t: Seq<NodeView>, cs: Seq<usize>) -> Seq<char>
    decreases cs.len(),
{
    if cs.len() == 0 {
        Seq::empty()
    } else {
        let prev = declarator_name_scan(t, cs.drop_last());
        let c = cs.last();
        if kind_at(t, c) == "variable_declarator"@ {
            match first_child_of_kinds(t, c, seq!["identifier"@]) {
                Some(x) => text_at(t, x),
                None => prev,
            }
        } else {
            prev
        }
    }
}

/// The enclosing class and name of a field declaration.
pub open spec fn field_context(t: Seq<NodeView>, f: usize) -> Option<(Seq<char>, Seq<char>)> {
    let name = declarator_name_scan(t, t[f as int].children);
    if name.len() == 0 {
        None
    } else {
        match containing_class(t, f) {
            Some(c) => Some((c, name)),
            None => None,
        }
    }
}

/// The class, method and name of a formal parameter.
pub open spec fn parameter_context(t: Seq<NodeView>, p: usize) -> Option<
    (Seq<char>, Seq<char>, Seq<char>),
> {
    match field_child(t, p, "name"@) {
        None => None,
        Some(x) => match nearest_ancestor(t, p, seq!["method_declaration"@]) {
            None => None,
            Some(m) => match method_context(t, m) {
                Some((c, mn)) => Some((c, mn, text_at(t, x))),
                None => None,
            },
        },
    }
}

/// What node `p` makes the annotated target, when it is a declaration
/// whose context can be named.
pub open spec fn target_at(t: Seq<NodeView>, p: usize) -> Option<AnnotationTargetView> {
    let k = kind_at(t, p);
    if class_kinds().contains(k) {
        match class_name_of(t, p) {
            Some(c) => Some(AnnotationTargetView::Class(c)),
            None => None,
        }
    } else if k == "method_declaration"@ {
        match method_context(t, p) {
            Some((c, m)) => Some(AnnotationTargetView::Method(c, m)),
            None => None,
        }
    } else if k == "field_declaration"@ {
        match field_context(t, p) {
            Some((c, f)) => Some(AnnotationTargetView::Field(c, f)),
            None => None,
        }
    } else if k == "formal_parameter"@ {
        match parameter_context(t, p) {
            Some((c, m, x)) => Some(AnnotationTargetView::Parameter(c, m, x)),
            None => None,
        }
    } else {
        None
    }
}

/// The target found at node `p` or its nearest ancestor that names one.
pub open spec fn target_from(t: Seq<NodeView>, p: usize) -> AnnotationTargetView
    decreases p,
{
    if p as int >= t.len() {
        AnnotationTargetView::Unknown
    } else {
        match target_at(t, p) {
            Some(x) => x,
            None => match t[p as int].parent {
                Some(q) => if q < p {
                    target_from(t, q)
                } else {
                    AnnotationTargetView::Unknown
                },
                None => AnnotationTargetView::Unknown,
            },
        }
    }
}

/// What an annotation is attached to: the first ancestor that names a
/// target.
pub open spec fn annotation_target(t: Seq<NodeView>, a: usize) -> AnnotationTargetView {
    match t[a as int].parent {
        Some(p) => if p < a {
            target_from(t, p)
        } else {
            AnnotationTargetView::Unknown
        },
        None => AnnotationTargetView::Unknown,
    }
}

/// A use of an annotation with a name.
pub open spec fn annotation_usage(t: Seq<NodeView>, a: usize) -> Option<AnnotationUsageView> {
    let name = annotation_name_of(t, a);
    if name.len() == 0 {
        None
    } else {
        Some(
            AnnotationUsageView {
                annotation_name: name,
                target: annotation_target(t, a),
                position: node_position(t, a),
            },
        )
    }
}

/// The annotation uses at the listed nodes.
pub open spec fn annotation_usages_in(t: Seq<NodeView>, ns: Seq<usize>) -> Seq<AnnotationUsageView>
    decreases ns.len(),
{
    if ns.len() == 0 {
        Seq::empty()
    } else {
        annotation_usages_in(t, ns.drop_last()) + opt_seq(annotation_usage(t, ns.last()))
    }
}

/// The annotation uses of a file: marker annotations, then the others.
pub open spec fn file_annotation_usages(t: Seq<NodeView>) -> Seq<AnnotationUsageView> {
    annotation_usages_in(t, nodes_of_kind(t, "marker_annotation"@)) + annotation_usages_in(
        t,
        nodes_of_kind(t, "annotation"@),
    )
}

/// A local variable declaration with a type and a named first declarator.
pub open spec fn variable_info(t: Seq<NodeView>, v: usize) -> Option<VariableDeclarationView> {
    match field_child(t, v, "type"@) {
        None => None,
        Some(ty) => match first_child_of_kinds(t, v, seq!["variable_declarator"@]) {
            None => None,
            Some(d) => match field_child(t, d, "name"@) {
                None => None,
                Some(x) => Some(
                    VariableDeclarationView {
                        variable_name: text_at(t, x),
                        type_name_: type_name_of(t, ty),
                        resolved_type: None,
                        method_context: match nearest_ancestor(t, v, callable_kinds()) {
                            Some(m) => opt_text(t, field_child(t, m, "name"@)),
                            None => None,
                        },
                        class_context: containing_class(t, v),
                        position: node_position(t, v),
                    },
                ),
            },
        },
    }
}

/// The variable declarations at the listed nodes.
pub open spec fn variables_in(t: Seq<NodeView>, ns: Seq<usize>) -> Seq<VariableDeclarationView>
    decreases ns.len(),
{
    if ns.len() == 0 {
        Seq::empty()
    } else {
        variables_in(t, ns.drop_last()) + opt_seq(variable_info(t, ns.last()))
    }
}

/// The local variable declarations of a file, in preorder.
pub open spec fn file_variables(t: Seq<NodeView>) -> Seq<VariableDeclarationView> {
    variables_in(t, nodes_of_kind(t, "local_variable_declaration"@))
}

fn method_call_info_exec(tree: &SyntaxTree, n: usize) -> (r: Option<MethodCall>)
    requires
        n < tree@.len(),
    ensures
        view_opt(r) == method_call_info(tree@, n),
{
    let mut name = match tree.child_by_field_name(n, "name") {
        Some(x) => text_string(tree, x),
        None => String::new(),
    };
    let receiver = match tree.child_by_field_name(n, "object") {
        Some(x) => Some(text_string(tree, x)),
        None => None,
    };
    if name.as_str().is_empty() {
        name = match tree.first_child_of_kinds(n, &one_kind_list("identifier")) {
            Some(x) => text_string(tree, x),
            None => String::new(),
        };
    }
    if !name.as_str().is_empty() {
        Some(MethodCall { method_name: name, receiver_type: receiver, position: SourcePosition::from_node(tree, n) })
    } else {
        None
    }
}

/// The method invocations of a file, in preorder.
pub fn extract_method_calls(tree: &SyntaxTree) -> (r: Vec<MethodCall>)
    ensures
        r@.map_values(|c: MethodCall| c@) == file_method_calls(tree@),
{
    let ns = tree.find_nodes_by_kind("method_invocation");
    let ghost all = ns@;
    let ghost t = tree@;
    let mut out: Vec<MethodCall> = Vec::new();
    let n = ns.len();
    assert(out@.map_values(|c: MethodCall| c@) =~= Seq::<MethodCallView>::empty());
    for k in 0..n
        invariant
            n == all.len(),
            all == ns@,
            t == tree@,
            indices_in(t, all),
            out@.map_values(|c: MethodCall| c@) == method_calls_in(t, all.take(k as int)),
    {
        let x = ns[k];
        assert(all.take(k + 1).drop_last() =~= all.take(k as int));
        assert(all.take(k + 1).last() == x);
        let ghost before = out@;
        match method_call_info_exec(tree, x) {
            Some(c) => {
                out.push(c);
                assert(out@.map_values(|c: MethodCall| c@) =~= before.map_values(
                    |c: MethodCall| c@,
                ) + seq![out@.last()@]);
            },
            None => {
                assert(out@.map_values(|c: MethodCall| c@) =~= before.map_values(
                    |c: MethodCall| c@,
                ) + Seq::<MethodCallView>::empty());
            },
        }
    }
    assert(all.take(n as int) =~= all);
    out
}

fn constructor_call_info_exec(tree: &SyntaxTree, n: usize) -> (r: Option<ConstructorCall>)
    requires
        n < tree@.len(),
    ensures
        view_opt(r) == constructor_call_info(tree@, n),
{
    let mut ty = match tree.child_by_field_name(n, "type") {
        Some(x) => type_name_from_node(tree, x),
        None => String::new(),
    };
    if ty.as_str().is_empty() {
        ty = match tree.first_child_of_kinds(n, &one_kind_list("type_identifier")) {
            Some(x) => text_string(tree, x),
            None => String::new(),
        };
    }
    if !ty.as_str().is_empty() {
        Some(ConstructorCall { type_name_: ty, resolved_type: None, position: SourcePosition::from_node(tree, n) })
    } else {
        None
    }
}

/// The `new` expressions of a file, in preorder.
pub fn extract_constructor_calls(tree: &SyntaxTree) -> (r: Vec<ConstructorCall>)
    ensures
        r@.map_values(|c: ConstructorCall| c@) == file_constructor_calls(tree@),
{
    let ns = tree.find_nodes_by_kind("object_creation_expression");
    let ghost all = ns@;
    let ghost t = tree@;
    let mut out: Vec<ConstructorCall> = Vec::new();
    let n = ns.len();
    assert(out@.map_values(|c: ConstructorCall| c@) =~= Seq::<ConstructorCallView>::empty());
    for k in 0..n
        invariant
            n == all.len(),
            all == ns@,
            t == tree@,
            indices_in(t, all),
            out@.map_values(|c: ConstructorCall| c@) == constructor_calls_in(t, all.take(k as int)),
    {
        let x = ns[k];
        assert(all.take(k + 1).drop_last() =~= all.take(k as int));
        assert(all.take(k + 1).last() == x);
        let ghost before = out@;
        match constructor_call_info_exec(tree, x) {
            Some(c) => {
                out.push(c);
                assert(out@.map_values(|c: ConstructorCall| c@) =~= before.map_values(
                    |c: ConstructorCall| c@,
                ) + seq![out@.last()@]);
            },
            None => {
                assert(out@.map_values(|c: ConstructorCall| c@) =~= before.map_values(
                    |c: ConstructorCall| c@,
                ) + Seq::<ConstructorCallView>::empty());
            },
        }
    }
    assert(all.take(n as int) =~= all);
    out
}

fn class_name_exec(tree: &SyntaxTree, c: usize) -> (r: Option<String>)
    requires
        c < tree@.len(),
    ensures
        opt_view(r) == class_name_of(tree@, c),
{
    match tree.first_child_of_kinds(c, &one_kind_list("identifier")) {
        Some(x) => Some(text_string(tree, x)),
        None => None,
    }
}

fn containing_class_exec(tree: &SyntaxTree, n: usize) -> (r: Option<String>)
    requires
        n < tree@.len(),
    ensures
        opt_view(r) == containing_class(tree@, n),
{
    match tree.nearest_ancestor(n, &class_kind_list()) {
        Some(a) => class_name_exec(tree, a),
        None => None,
    }
}

fn method_context_exec(tree: &SyntaxTree, m: usize) -> (r: Option<(String, String)>)
    requires
        m < tree@.len(),
    ensures
        match r {
            Some(p) => method_context(tree@, m) == Some((p.0@, p.1@)),
            None => method_context(tree@, m) is None,
        },
{
    match tree.child_by_field_name(m, "name") {
        None => None,
        Some(x) => match containing_class_exec(tree, m) {
            Some(c) => Some((c, text_string(tree, x))),
            None => None,
        },
    }
}

fn field_context_exec(tree: &SyntaxTree, f: usize) -> (r: Option<(String, String)>)
    requires
        f < tree@.len(),
    ensures
        match r {
            Some(p) => field_context(tree@, f) == Some((p.0@, p.1@)),
            None => field_context(tree@, f) is None,
        },
{
    let cs = tree.children(f);
    let ghost all = cs@;
    let ghost t = tree@;
    let idents = one_kind_list("identifier");
    let mut name = String::new();
    let n = cs.len();
    for k in 0..n
        invariant
            n == all.len(),
            all == cs@,
            t == tree@,
            indices_in(t, all),
            str_views(idents@) == seq!["identifier"@],
            name@ == declarator_name_scan(t, all.take(k as int)),
    {
        let c = cs[k];
        assert(all.take(k + 1).drop_last() =~= all.take(k as int));
        assert(all.take(k + 1).last() == c);
        if kind_is(tree, c, "variable_declarator") {
            match tree.first_child_of_kinds(c, &idents) {
                Some(x) => {
                    name = text_string(tree, x);
                },
                None => {},
            }
        }
    }
    assert(all.take(n as int) =~= all);
    if name.as_str().is_empty() {
        return None;
    }
    match containing_class_exec(tree, f) {
        Some(c) => Some((c, name)),
        None => None,
    }
}

fn parameter_context_exec(tree: &SyntaxTree, p: usize) -> (r: Option<(String, String, String)>)
    requires
        p < tree@.len(),
    ensures
        match r {
            Some(x) => parameter_context(tree@, p) == Some((x.0@, x.1@, x.2@)),
            None => parameter_context(tree@, p) is None,
        },
{
    match tree.child_by_field_name(p, "name") {
        None => None,
        Some(x) => match tree.nearest_ancestor(p, &one_kind_list("method_declaration")) {
            None => None,
            Some(m) => match method_context_exec(tree, m) {
                Some((c, mn)) => Some((c, mn, text_string(tree, x))),
                None => None,
            },
        },
    }
}

fn target_at_exec(tree: &SyntaxTree, p: usize) -> (r: Option<AnnotationTarget>)
    requires
        p < tree@.len(),
    ensures
        view_opt(r) == target_at(tree@, p),
{
    if tree.kind_is_one_of(p, &class_kind_list()) {
        match class_name_exec(tree, p) {
            Some(c) => Some(AnnotationTarget::Class(c)),
            None => None,
        }
    } else if kind_is(tree, p, "method_declaration") {
        match method_context_exec(tree, p) {
            Some((c, m)) => Some(AnnotationTarget::Method(c, m)),
            None => None,
        }
    } else if kind_is(tree, p, "field_declaration") {
        match field_context_exec(tree, p) {
            Some((c, f)) => Some(AnnotationTarget::Field(c, f)),
            None => None,
        }
    } else if kind_is(tree, p, "formal_parameter") {
        match parameter_context_exec(tree, p) {
            Some((c, m, x)) => Some(AnnotationTarget::Parameter(c, m, x)),
            None => None,
        }
    } else {
        None
    }
}

fn annotation_target_exec(tree: &SyntaxTree, a: usize) -> (r: AnnotationTarget)
    requires
        a < tree@.len(),
    ensures
        r@ == annotation_target(tree@, a),
{
    let mut cur = a;
    loop
        invariant
            cur <= a < tree@.len(),
            cur == a ==> annotation_target(tree@, a) == annotation_target(tree@, cur),
            cur < a ==> annotation_target(tree@, a) == target_from(tree@, cur),
        decreases cur,
    {
        if cur < a {
            match target_at_exec(tree, cur) {
                Some(x) => return x,
                None => {},
            }
        }
        match tree.parent(cur) {
            None => return AnnotationTarget::Unknown,
            Some(p) => {
                cur = p;
            },
        }
    }
}

fn annotation_usage_exec(tree: &SyntaxTree, a: usize) -> (r: Option<AnnotationUsage>)
    requires
        a < tree@.len(),
    ensures
        view_opt(r) == annotation_usage(tree@, a),
{
    let name = annotation_name_exec(tree, a);
    if name.as_str().is_empty() {
        return None;
    }
    Some(
        AnnotationUsage {
            annotation_name: name,
            target: annotation_target_exec(tree, a),
            position: SourcePosition::from_node(tree, a),
        },
    )
}

fn add_annotation_usages(tree: &SyntaxTree, kind: &str, out: &mut Vec<AnnotationUsage>)
    ensures
        final(out)@.map_values(|u: AnnotationUsage| u@) == old(out)@.map_values(
            |u: AnnotationUsage| u@,
        ) + annotation_usages_in(tree@, nodes_of_kind(tree@, kind@)),
{
    let ns = tree.find_nodes_by_kind(kind);
    let ghost all = ns@;
    let ghost t = tree@;
    let ghost start = out@.map_values(|u: AnnotationUsage| u@);
    let n = ns.len();
    assert(start + Seq::<AnnotationUsageView>::empty() =~= start);
    for k in 0..n
        invariant
            n == all.len(),
            all == ns@,
            t == tree@,
            indices_in(t, all),
            out@.map_values(|u: AnnotationUsage| u@) == start + annotation_usages_in(
                t,
                all.take(k as int),
            ),
    {
        let x = ns[k];
        assert(all.take(k + 1).drop_last() =~= all.take(k as int));
        assert(all.take(k + 1).last() == x);
        let ghost before = out@;
        match annotation_usage_exec(tree, x) {
            Some(u) => {
                out.push(u);
                assert(out@.map_values(|u: AnnotationUsage| u@) =~= before.map_values(
                    |u: AnnotationUsage| u@,
                ) + seq![out@.last()@]);
            },
            None => {
                assert(out@.map_values(|u: AnnotationUsage| u@) =~= before.map_values(
                    |u: AnnotationUsage| u@,
                ) + Seq::<AnnotationUsageView>::empty());
            },
        }
        assert(start + annotation_usages_in(t, all.take(k + 1)) =~= start + annotation_usages_in(
            t,
            all.take(k as int),
        ) + opt_seq(annotation_usage(t, x)));
    }
    assert(all.take(n as int) =~= all);
}

/// The annotation uses of a file: marker annotations, then the others.
pub fn extract_annotations(tree: &SyntaxTree) -> (r: Vec<AnnotationUsage>)
    ensures
        r@.map_values(|u: AnnotationUsage| u@) == file_annotation_usages(tree@),
{
    let mut out: Vec<AnnotationUsage> = Vec::new();
    assert(out@.map_values(|u: AnnotationUsage| u@) =~= Seq::<AnnotationUsageView>::empty());
    add_annotation_usages(tree, "marker_annotation", &mut out);
    add_annotation_usages(tree, "annotation", &mut out);
    assert(Seq::<AnnotationUsageView>::empty() + annotation_usages_in(
        tree@,
        nodes_of_kind(tree@, "marker_annotation"@),
    ) =~= annotation_usages_in(tree@, nodes_of_kind(tree@, "marker_annotation"@)));
    out
}

fn variable_info_exec(tree: &SyntaxTree, v: usize) -> (r: Option<VariableDeclaration>)
    requires
        v < tree@.len(),
    ensures
        view_opt(r) == variable_info(tree@, v),
{
    let ty = match tree.child_by_field_name(v, "type") {
        None => return None,
        Some(ty) => ty,
    };
    let d = match tree.first_child_of_kinds(v, &one_kind_list("variable_declarator")) {
        None => return None,
        Some(d) => d,
    };
    let x = match tree.child_by_field_name(d, "name") {
        None => return None,
        Some(x) => x,
    };
    let method_context = match tree.nearest_ancestor(v, &callable_kind_list()) {
        Some(m) => match tree.child_by_field_name(m, "name") {
            Some(y) => Some(text_string(tree, y)),
            None => None,
        },
        None => None,
    };
    Some(
        VariableDeclaration {
            variable_name: text_string(tree, x),
            type_name_: type_name_from_node(tree, ty),
            resolved_type: None,
            method_context,
            class_context: containing_class_exec(tree, v),
            position: SourcePosition::from_node(tree, v),
        },
    )
}

/// The local variable declarations of a file, in preorder.
pub fn extract_variables(tree: &SyntaxTree) -> (r: Vec<VariableDeclaration>)
    ensures
        r@.map_values(|v: VariableDeclaration| v@) == file_variables(tree@),
{
    let ns = tree.find_nodes_by_kind("local_variable_declaration");
    let ghost all = ns@;
    let ghost t = tree@;
    let mut out: Vec<VariableDeclaration> = Vec::new();
    let n = ns.len();
    assert(out@.map_values(|v: VariableDeclaration| v@) =~= Seq::<VariableDeclarationView>::empty());
    for k in 0..n
        invariant
            n == all.len(),
            all == ns@,
            t == tree@,
            indices_in(t, all),
            out@.map_values(|v: VariableDeclaration| v@) == variables_in(t, all.take(k as int)),
    {
        let x = ns[k];
        assert(all.take(k + 1).drop_last() =~= all.take(k as int));
        assert(all.take(k + 1).last() == x);
        let ghost before = out@;
        match variable_info_exec(tree, x) {
            Some(v) => {
                out.push(v);
                assert(out@.map_values(|v: VariableDeclaration| v@) =~= before.map_values(
                    |v: VariableDeclaration| v@,
                ) + seq![out@.last()@]);
            },
            None => {
                assert(out@.map_values(|v: VariableDeclaration| v@) =~= before.map_values(
                    |v: VariableDeclaration| v@,
                ) + Seq::<VariableDeclarationView>::empty());
            },
        }
    }
    assert(all.take(n as int) =~= all);
    out
}

// ---------------------------------------------------------------------------
// Whole files
// ---------------------------------------------------------------------------

/// The symbols of a file with the given path and syntax tree.
pub open spec fn file_info_of(t: Seq<NodeView>, path: Seq<char>) -> FileInfoView {
    let package = package_name(t);
    let imports = file_imports(t);
    FileInfoView {
        file_path: path,
        package_name: package,
        explicit_imports: imports.0,
        wildcard_imports: imports.1,
        classes: file_classes(t, package),
        method_calls: file_method_calls(t),
        constructor_calls: file_constructor_calls(t),
        annotations: file_annotation_usages(t),
        variables: file_variables(t),
    }
}

/// Extracts the symbols of a file from its syntax tree.
pub fn file_info_from_tree(tree: &SyntaxTree, path: String) -> (r: FileInfo)
    ensures
        r@ == file_info_of(tree@, path@),
{
    let package_name = extract_package(tree);
    let (explicit_imports, wildcard_imports) = extract_imports(tree);
    let classes = extract_classes(tree, &package_name);
    FileInfo {
        file_path: path,
        package_name,
        explicit_imports,
        wildcard_imports,
        classes,
        method_calls: extract_method_calls(tree),
        constructor_calls: extract_constructor_calls(tree),
        annotations: extract_annotations(tree),
        variables: extract_variables(tree),
    }
}

/// Whether `fi` is what extraction yields for the Java syntax tree of
/// `source`.
pub open spec fn extracted_from(fi: FileInfoView, source: Seq<char>, path: Seq<char>) -> bool {
    let t = crate::syntax::java_tree(source);
    tree_wf(t) && crate::syntax::texts_match(t, source) && fi == file_info_of(t, path)
}

} // verus!

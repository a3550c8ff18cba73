//! Java syntax trees: `tree_sitter` parses the source, and the tree is
//! copied into an arena of plain nodes that the analyses walk.

use vstd::prelude::*;
use vstd::utf8::encode_utf8;

use crate::text::{opt_view, str_eq, str_views};

verus! {

#[verifier::external_type_specification]
#[verifier::external_body]
pub struct ExParser(tree_sitter::Parser);

#[verifier::external_type_specification]
#[verifier::external_body]
pub struct ExTree(tree_sitter::Tree);

#[verifier::external_type_specification]
#[verifier::external_body]
pub struct ExTreeCursor<'a>(tree_sitter::TreeCursor<'a>);

#[verifier::external_type_specification]
#[verifier::external_body]
pub struct ExNode<'a>(tree_sitter::Node<'a>);

/// The text that `str::get` returns for the byte range `start..end` of a
/// string: the characters between the two offsets when both fall on
/// character boundaries (the UTF-8 length of some prefix) and `start` is
/// not after `end`; the empty text where `get` gives nothing.
pub closed spec fn byte_slice(s: Seq<char>, start: nat, end: nat) -> Seq<char> {
    if exists|i: int, j: int|
        0 <= i <= j <= s.len() && encode_utf8(#[trigger] s.take(i)).len() == start && encode_utf8(
            #[trigger] s.take(j),
        ).len() == end {
        let (i, j) = choose|i: int, j: int|
            0 <= i <= j <= s.len() && encode_utf8(#[trigger] s.take(i)).len() == start && encode_utf8(
                #[trigger] s.take(j),
            ).len() == end;
        s.subrange(i, j)
    } else {
        Seq::empty()
    }
}

/// What tree-sitter's Java grammar gives for `source`: whether the cursor
/// can move from the node at `path` (child indices from the root, as the
/// cursor visits children) to a first child (`TreeCursor::goto_first_child`).
pub uninterp spec fn ts_has_first_child(source: Seq<char>, path: Seq<nat>) -> bool;

/// Whether the cursor can move from the node at `path` to a next sibling
/// (`TreeCursor::goto_next_sibling`).
pub uninterp spec fn ts_has_next_sibling(source: Seq<char>, path: Seq<nat>) -> bool;

/// The field under which the node at `path` hangs (`TreeCursor::field_name`).
pub uninterp spec fn ts_field_name(source: Seq<char>, path: Seq<nat>) -> Option<Seq<char>>;

/// The grammar symbol of the node at `path` (`Node::kind`).
pub uninterp spec fn ts_kind(source: Seq<char>, path: Seq<nat>) -> Seq<char>;

/// The first byte of the node at `path` (`Node::start_byte`).
pub uninterp spec fn ts_start_byte(source: Seq<char>, path: Seq<nat>) -> usize;

/// The byte after the node at `path` (`Node::end_byte`).
pub uninterp spec fn ts_end_byte(source: Seq<char>, path: Seq<nat>) -> usize;

/// Zero-based row and column where the node at `path` starts
/// (`Node::start_position`).
pub uninterp spec fn ts_start_position(source: Seq<char>, path: Seq<nat>) -> (usize, usize);

/// Zero-based row and column where the node at `path` ends
/// (`Node::end_position`).
pub uninterp spec fn ts_end_position(source: Seq<char>, path: Seq<nat>) -> (usize, usize);

/// The number of nodes in the subtree at `path`, itself included
/// (`Node::descendant_count`).
pub uninterp spec fn ts_descendant_count(source: Seq<char>, path: Seq<nat>) -> usize;

/// A tree-sitter parser; `java` records whether the Java grammar is set.
pub struct JavaParser {
    parser: tree_sitter::Parser,
    java: Ghost<bool>,
}

/// A tree that tree-sitter built for the text `source`.
struct ParsedTree {
    tree: tree_sitter::Tree,
    source: Ghost<Seq<char>>,
}

/// Where a cursor or a node stands: the parsed text and the path of child
/// indices from the root.
pub struct NodePos {
    pub source: Seq<char>,
    pub path: Seq<nat>,
}

/// A tree-sitter cursor with the position of its current node.
struct Cursor<'a> {
    cursor: tree_sitter::TreeCursor<'a>,
    source: Ghost<Seq<char>>,
    path: Ghost<Seq<nat>>,
}

/// A tree-sitter node with its position.
struct NodeAt<'a> {
    node: tree_sitter::Node<'a>,
    source: Ghost<Seq<char>>,
    path: Ghost<Seq<nat>>,
}

impl<'a> View for Cursor<'a> {
    type V = NodePos;

    closed spec fn view(&self) -> NodePos {
        NodePos { source: self.source@, path: self.path@ }
    }
}

impl<'a> View for NodeAt<'a> {
    type V = NodePos;

    closed spec fn view(&self) -> NodePos {
        NodePos { source: self.source@, path: self.path@ }
    }
}

/// Calls `tree_sitter::Parser::new`: a parser without a language.
#[verifier::external_body]
fn new_parser() -> (p: JavaParser)
    ensures
        !p.java@,
{
    JavaParser { parser: tree_sitter::Parser::new(), java: Ghost(false) }
}

/// Calls `tree_sitter::Parser::set_language` with the Java grammar of
/// `tree_sitter_java`. It succeeds: the grammar's ABI version lies within
/// the range this tree-sitter accepts and the grammar has a lexer, which is
/// all that `set_language` tests.
#[verifier::external_body]
fn set_java_language(parser: &mut JavaParser) -> (ok: bool)
    ensures
        ok,
        final(parser).java@,
{
    parser.parser.set_language(&tree_sitter_java::LANGUAGE.into()).is_ok()
}

/// Calls `tree_sitter::Parser::parse` on the whole text: a tree whenever a
/// grammar is set, and that tree is the one named by the `ts_` functions
/// for this text.
#[verifier::external_body]
fn parse_text(parser: &mut JavaParser, source: &str) -> (r: Option<ParsedTree>)
    ensures
        old(parser).java@ ==> r is Some,
        r matches Some(t) ==> t.source@ == source@,
        final(parser).java == old(parser).java,
{
    match parser.parser.parse(source, None) {
        Some(tree) => Some(ParsedTree { tree, source: Ghost(source@) }),
        None => None,
    }
}

/// Calls `tree_sitter::Tree::walk`: a cursor on the root node.
#[verifier::external_body]
fn walk<'a>(tree: &'a ParsedTree) -> (c: Cursor<'a>)
    ensures
        c@ == (NodePos { source: tree.source@, path: Seq::empty() }),
{
    Cursor { cursor: tree.tree.walk(), source: tree.source, path: Ghost(Seq::empty()) }
}

/// Calls `tree_sitter::TreeCursor::node`: the node under the cursor.
#[verifier::external_body]
fn cursor_node<'a>(cursor: &Cursor<'a>) -> (n: NodeAt<'a>)
    ensures
        n@ == cursor@,
{
    NodeAt { node: cursor.cursor.node(), source: cursor.source, path: cursor.path }
}

/// Calls `tree_sitter::TreeCursor::field_name`: the field under which the
/// node under the cursor hangs from its parent, if any.
#[verifier::external_body]
fn cursor_field_name(cursor: &Cursor) -> (r: Option<String>)
    ensures
        opt_view(r) == ts_field_name(cursor@.source, cursor@.path),
{
    cursor.cursor.field_name().map(|f| f.to_owned())
}

/// Calls `tree_sitter::TreeCursor::goto_first_child`: on success the
/// cursor stands on child 0 of its node.
#[verifier::external_body]
fn goto_first_child(cursor: &mut Cursor) -> (r: bool)
    ensures
        r == ts_has_first_child(old(cursor)@.source, old(cursor)@.path),
        final(cursor)@ == (if r {
            NodePos { source: old(cursor)@.source, path: old(cursor)@.path.push(0) }
        } else {
            old(cursor)@
        }),
{
    cursor.cursor.goto_first_child()
}

/// Calls `tree_sitter::TreeCursor::goto_next_sibling`: on success the
/// cursor stands on the next child of the same parent.
#[verifier::external_body]
fn goto_next_sibling(cursor: &mut Cursor) -> (r: bool)
    ensures
        r == ts_has_next_sibling(old(cursor)@.source, old(cursor)@.path),
        final(cursor)@ == (if r {
            NodePos { source: old(cursor)@.source, path: sibling_path(old(cursor)@.path) }
        } else {
            old(cursor)@
        }),
{
    cursor.cursor.goto_next_sibling()
}

/// Calls `tree_sitter::TreeCursor::goto_parent`: it moves, and returns
/// true, unless the cursor stands on the node it was made on.
#[verifier::external_body]
fn goto_parent(cursor: &mut Cursor) -> (r: bool)
    ensures
        r == (old(cursor)@.path.len() > 0),
        final(cursor)@ == (NodePos { source: old(cursor)@.source, path: parent_path(old(cursor)@.path) }),
{
    cursor.cursor.goto_parent()
}

/// Calls `tree_sitter::Node::kind`: the grammar symbol of the node.
#[verifier::external_body]
fn node_kind(node: &NodeAt) -> (r: String)
    ensures
        r@ == ts_kind(node@.source, node@.path),
{
    node.node.kind().to_owned()
}

/// Calls `tree_sitter::Node::start_byte`.
#[verifier::external_body]
fn node_start_byte(node: &NodeAt) -> (r: usize)
    ensures
        r == ts_start_byte(node@.source, node@.path),
{
    node.node.start_byte()
}

/// Calls `tree_sitter::Node::end_byte`.
#[verifier::external_body]
fn node_end_byte(node: &NodeAt) -> (r: usize)
    ensures
        r == ts_end_byte(node@.source, node@.path),
{
    node.node.end_byte()
}

/// Calls `tree_sitter::Node::start_position`: zero-based row and column.
#[verifier::external_body]
fn node_start_position(node: &NodeAt) -> (r: (usize, usize))
    ensures
        r == ts_start_position(node@.source, node@.path),
{
    let p = node.node.start_position();
    (p.row, p.column)
}

/// Calls `tree_sitter::Node::end_position`: zero-based row and column.
#[verifier::external_body]
fn node_end_position(node: &NodeAt) -> (r: (usize, usize))
    ensures
        r == ts_end_position(node@.source, node@.path),
{
    let p = node.node.end_position();
    (p.row, p.column)
}

/// Calls `tree_sitter::Node::descendant_count`: the number of nodes in the
/// subtree, the node itself included.
#[verifier::external_body]
fn node_descendant_count(node: &NodeAt) -> (r: usize)
    ensures
        r == ts_descendant_count(node@.source, node@.path),
{
    node.node.descendant_count()
}

/// The path of the next sibling of the node at `path`.
pub open spec fn sibling_path(path: Seq<nat>) -> Seq<nat> {
    path.drop_last().push(path.last() + 1)
}

/// The path of the parent of the node at `path` (the root stays put).
pub open spec fn parent_path(path: Seq<nat>) -> Seq<nat> {
    if path.len() > 0 {
        path.drop_last()
    } else {
        path
    }
}

/// Calls `str::get` with the byte range `start..end`; the empty text where
/// it returns `None`.
#[verifier::external_body]
pub(crate) fn slice_text(source: &str, start: usize, end: usize) -> (r: String)
    ensures
        r@ == byte_slice(source@, start as nat, end as nat),
{
    source.get(start..end).unwrap_or("").to_owned()
}

/// A node of a syntax tree: its grammar symbol, the field it hangs under,
/// its text and its span.
#[derive(Debug, Clone)]
pub struct SyntaxNode {
    pub kind: String,
    pub field: Option<String>,
    pub text: String,
    pub start_byte: usize,
    pub end_byte: usize,
    /// Zero-based.
    pub start_row: usize,
    /// Zero-based.
    pub start_column: usize,
    /// Zero-based.
    pub end_row: usize,
    /// Zero-based.
    pub end_column: usize,
}

/// The mathematical value of a node in its tree.
pub struct NodeView {
    pub kind: Seq<char>,
    pub field: Option<Seq<char>>,
    pub text: Seq<char>,
    pub start_byte: usize,
    pub end_byte: usize,
    pub start_row: usize,
    pub start_column: usize,
    pub end_row: usize,
    pub end_column: usize,
    pub parent: Option<usize>,
    pub children: Seq<usize>,
}

/// A syntax tree as an arena of nodes in preorder; node 0 is the root.
#[derive(Debug)]
pub struct SyntaxTree {
    nodes: Vec<SyntaxNode>,
    parents: Vec<Option<usize>>,
    children: Vec<Vec<usize>>,
}

/// Whether the nodes form a tree rooted at node 0: every other node has an
/// earlier parent, and every child of a node names it as its parent.
pub open spec fn tree_wf(t: Seq<NodeView>) -> bool {
    &&& t.len() >= 1
    &&& t[0].parent is None
    &&& forall|i: int|
        0 < i < t.len() ==> (#[trigger] t[i].parent matches Some(p) && (p as int) < i)
    &&& forall|i: int, k: int|
        0 <= i < t.len() && 0 <= k < t[i].children.len() ==> {
            let c = #[trigger] t[i].children[k];
            &&& (c as int) < t.len()
            &&& t[c as int].parent == Some(i as usize)
        }
}

impl SyntaxNode {
    pub open spec fn view_in(&self, parent: Option<usize>, children: Seq<usize>) -> NodeView {
        NodeView {
            kind: self.kind@,
            field: opt_view(self.field),
            text: self.text@,
            start_byte: self.start_byte,
            end_byte: self.end_byte,
            start_row: self.start_row,
            start_column: self.start_column,
            end_row: self.end_row,
            end_column: self.end_column,
            parent,
            children,
        }
    }
}

/// The arena's three lists seen as one sequence of node views.
pub open spec fn arena_view(
    nodes: Seq<SyntaxNode>,
    parents: Seq<Option<usize>>,
    children: Seq<Vec<usize>>,
) -> Seq<NodeView> {
    Seq::new(nodes.len(), |i: int| nodes[i].view_in(parents[i], children[i]@))
}

impl View for SyntaxTree {
    type V = Seq<NodeView>;

    closed spec fn view(&self) -> Seq<NodeView> {
        arena_view(self.nodes@, self.parents@, self.children@)
    }
}

/// Whether every node's text is the source text of its byte range.
pub open spec fn texts_match(t: Seq<NodeView>, source: Seq<char>) -> bool {
    forall|i: int|
        0 <= i < t.len() ==> (#[trigger] t[i]).text == byte_slice(
            source,
            t[i].start_byte as nat,
            t[i].end_byte as nat,
        )
}

/// The nodes of the given kind, in preorder (the first `n` nodes only).
pub open spec fn kind_indices(t: Seq<NodeView>, kind: Seq<char>, n: int) -> Seq<usize>
    decreases n,
{
    if n <= 0 {
        Seq::empty()
    } else if t[n - 1].kind == kind {
        kind_indices(t, kind, n - 1).push((n - 1) as usize)
    } else {
        kind_indices(t, kind, n - 1)
    }
}

/// The nodes of the given kind, in preorder.
pub open spec fn nodes_of_kind(t: Seq<NodeView>, kind: Seq<char>) -> Seq<usize> {
    kind_indices(t, kind, t.len() as int)
}

/// The first of the listed nodes whose kind is one of `kinds`.
pub open spec fn first_of_kinds(t: Seq<NodeView>, cs: Seq<usize>, kinds: Seq<Seq<char>>) -> Option<usize>
    decreases cs.len(),
{
    if cs.len() == 0 {
        None
    } else if kinds.contains(t[cs[0] as int].kind) {
        Some(cs[0])
    } else {
        first_of_kinds(t, cs.drop_first(), kinds)
    }
}

/// The first child of node `i` whose kind is one of `kinds`.
pub open spec fn first_child_of_kinds(t: Seq<NodeView>, i: usize, kinds: Seq<Seq<char>>) -> Option<usize> {
    first_of_kinds(t, t[i as int].children, kinds)
}

/// The first of the listed nodes that hangs under the given field.
pub open spec fn first_with_field(t: Seq<NodeView>, cs: Seq<usize>, field: Seq<char>) -> Option<usize>
    decreases cs.len(),
{
    if cs.len() == 0 {
        None
    } else if t[cs[0] as int].field == Some(field) {
        Some(cs[0])
    } else {
        first_with_field(t, cs.drop_first(), field)
    }
}

/// The first child of node `i` under the given field.
pub open spec fn field_child(t: Seq<NodeView>, i: usize, field: Seq<char>) -> Option<usize> {
    first_with_field(t, t[i as int].children, field)
}

/// The nearest proper ancestor of node `i` whose kind is one of `kinds`.
pub open spec fn nearest_ancestor(t: Seq<NodeView>, i: usize, kinds: Seq<Seq<char>>) -> Option<usize>
    decreases i,
{
    if i as int >= t.len() {
        None
    } else {
        match t[i as int].parent {
            Some(p) => if p < i {
                if kinds.contains(t[p as int].kind) {
                    Some(p)
                } else {
                    nearest_ancestor(t, p, kinds)
                }
            } else {
                None
            },
            None => None,
        }
    }
}

/// The node at `path` of the Java tree of `source`, as an arena node with
/// the given parent and no children yet.
pub open spec fn named_node(source: Seq<char>, path: Seq<nat>, parent: Option<usize>) -> NodeView {
    let start = ts_start_byte(source, path);
    let end = ts_end_byte(source, path);
    NodeView {
        kind: ts_kind(source, path),
        field: ts_field_name(source, path),
        text: byte_slice(source, start as nat, end as nat),
        start_byte: start,
        end_byte: end,
        start_row: ts_start_position(source, path).0,
        start_column: ts_start_position(source, path).1,
        end_row: ts_end_position(source, path).0,
        end_column: ts_end_position(source, path).1,
        parent,
        children: Seq::empty(),
    }
}

/// A node with one more child.
pub open spec fn with_child(n: NodeView, c: usize) -> NodeView {
    NodeView {
        kind: n.kind,
        field: n.field,
        text: n.text,
        start_byte: n.start_byte,
        end_byte: n.end_byte,
        start_row: n.start_row,
        start_column: n.start_column,
        end_row: n.end_row,
        end_column: n.end_column,
        parent: n.parent,
        children: n.children.push(c),
    }
}

/// The arena with `n` appended as the last child of node `parent`.
pub open spec fn add_child(t: Seq<NodeView>, n: NodeView, parent: int) -> Seq<NodeView> {
    t.update(parent, with_child(t[parent], t.len() as usize)).push(n)
}

/// The state of a preorder walk that copies a tree into an arena: the
/// arena so far, the arena index and the tree path of the current node,
/// and whether the walk is over.
pub struct WalkState {
    pub nodes: Seq<NodeView>,
    pub cur: int,
    pub path: Seq<nat>,
    pub done: bool,
}

/// From node `cur` at `path`, climbs towards the root to the first node
/// with a next sibling and appends that sibling; the walk is over when the
/// root is reached.
pub open spec fn climb(source: Seq<char>, nodes: Seq<NodeView>, cur: int, path: Seq<nat>) -> WalkState
    decreases cur,
{
    let over = WalkState { nodes, cur, path, done: true };
    if cur <= 0 || cur >= nodes.len() {
        over
    } else {
        match nodes[cur].parent {
            Some(p) => if (p as int) < cur {
                if ts_has_next_sibling(source, path) {
                    let np = sibling_path(path);
                    WalkState {
                        nodes: add_child(nodes, named_node(source, np, Some(p)), p as int),
                        cur: nodes.len() as int,
                        path: np,
                        done: false,
                    }
                } else {
                    climb(source, nodes, p as int, parent_path(path))
                }
            } else {
                over
            },
            None => over,
        }
    }
}

/// One step of the walk: down to the first child, else on to the next
/// node after the current subtree.
pub open spec fn walk_step(source: Seq<char>, s: WalkState) -> WalkState {
    if ts_has_first_child(source, s.path) {
        let np = s.path.push(0);
        WalkState {
            nodes: add_child(s.nodes, named_node(source, np, Some(s.cur as usize)), s.cur),
            cur: s.nodes.len() as int,
            path: np,
            done: false,
        }
    } else {
        climb(source, s.nodes, s.cur, s.path)
    }
}

/// At most `n` steps of the walk.
pub open spec fn walk_run(source: Seq<char>, s: WalkState, n: nat) -> WalkState
    decreases n,
{
    if n == 0 || s.done {
        s
    } else {
        walk_run(source, walk_step(source, s), (n - 1) as nat)
    }
}

/// The walk before its first step: the root alone.
pub open spec fn walk_start(source: Seq<char>) -> WalkState {
    WalkState { nodes: seq![named_node(source, Seq::empty(), None)], cur: 0, path: Seq::empty(), done: false }
}

/// The arena of the Java syntax tree that tree-sitter builds for `source`:
/// its nodes in preorder, as many as the root's descendant count allows.
pub open spec fn java_tree(source: Seq<char>) -> Seq<NodeView> {
    walk_run(source, walk_start(source), ts_descendant_count(source, Seq::empty()) as nat).nodes
}

/// The node under the cursor, read into an arena node.
fn read_node(cursor: &Cursor, source: &str) -> (n: SyntaxNode)
    requires
        cursor@.source == source@,
    ensures
        n.view_in(None, Seq::empty()) == named_node(source@, cursor@.path, None),
{
    let node = cursor_node(cursor);
    let start_byte = node_start_byte(&node);
    let end_byte = node_end_byte(&node);
    let (start_row, start_column) = node_start_position(&node);
    let (end_row, end_column) = node_end_position(&node);
    SyntaxNode {
        kind: node_kind(&node),
        field: cursor_field_name(cursor),
        text: slice_text(source, start_byte, end_byte),
        start_byte,
        end_byte,
        start_row,
        start_column,
        end_row,
        end_column,
    }
}

/// Reading a node under any parent gives the named node under that parent.
proof fn lemma_read_under(n: SyntaxNode, source: Seq<char>, path: Seq<nat>, parent: Option<usize>)
    requires
        n.view_in(None, Seq::empty()) == named_node(source, path, None),
    ensures
        n.view_in(parent, Seq::empty()) == named_node(source, path, parent),
        n.text@ == byte_slice(source, n.start_byte as nat, n.end_byte as nat),
{
}

impl JavaParser {
    /// Whether the Java grammar is set.
    pub closed spec fn has_java(&self) -> bool {
        self.java@
    }

    /// A parser with the Java grammar of `tree_sitter_java` (`None` would
    /// mean that tree-sitter refused the grammar, which it does not).
    pub fn new_java() -> (r: Option<JavaParser>)
        ensures
            r matches Some(p) && p.has_java(),
    {
        let mut parser = new_parser();
        if set_java_language(&mut parser) {
            Some(parser)
        } else {
            None
        }
    }

    /// Parses Java source text: the tree is the one tree-sitter's Java
    /// grammar gives for the text, copied in preorder; it is a well-formed
    /// tree and each node's text is the source text of its byte range.
    /// A parser with the grammar set always gives a tree.
    pub fn parse(&mut self, source: &str) -> (r: Option<SyntaxTree>)
        ensures
            old(self).has_java() ==> r is Some,
            r matches Some(t) ==> t@ == java_tree(source@) && tree_wf(t@) && texts_match(t@, source@),
            final(self).has_java() == old(self).has_java(),
    {
        match parse_text(self, source) {
            Some(tree) => Some(SyntaxTree::copy_tree(&tree, source)),
            None => None,
        }
    }
}

impl SyntaxTree {
    #[verifier::type_invariant]
    spec fn wf(self) -> bool {
        &&& self.parents@.len() == self.nodes@.len()
        &&& self.children@.len() == self.nodes@.len()
        &&& tree_wf(self@)
    }

    /// Parses Java source text: the tree is the one tree-sitter's Java
    /// grammar gives for the text, copied in preorder; it is a well-formed
    /// tree and each node's text is the source text of its byte range.
    pub fn parse_java(source: &str) -> (r: Option<SyntaxTree>)
        ensures
            r matches Some(t) && t@ == java_tree(source@) && tree_wf(t@) && texts_match(t@, source@),
    {
        match JavaParser::new_java() {
            Some(mut parser) => parser.parse(source),
            None => None,
        }
    }

    /// Copies the tree that tree-sitter built for `source` into an arena.
    fn copy_tree(tree: &ParsedTree, source: &str) -> (t: SyntaxTree)
        requires
            tree.source@ == source@,
        ensures
            t@ == java_tree(source@),
            tree_wf(t@),
            texts_match(t@, source@),
    {
        let mut cursor = walk(tree);
        let fuel = node_descendant_count(&cursor_node(&cursor));
        let ghost src = source@;
        let ghost target = walk_run(src, walk_start(src), fuel as nat);
        let mut nodes: Vec<SyntaxNode> = Vec::new();
        let mut parents: Vec<Option<usize>> = Vec::new();
        let mut children: Vec<Vec<usize>> = Vec::new();
        let root = read_node(&cursor, source);
        proof {
            lemma_read_under(root, src, cursor@.path, None);
        }
        nodes.push(root);
        parents.push(None);
        children.push(Vec::new());
        let mut cur: usize = 0;
        let mut steps: usize = 0;
        proof {
            let v = arena_view(nodes@, parents@, children@);
            assert(v.len() == 1);
            assert(v =~= walk_start(src).nodes);
        }
        loop
            invariant_except_break
                walk_run(
                    src,
                    WalkState {
                        nodes: arena_view(nodes@, parents@, children@),
                        cur: cur as int,
                        path: cursor@.path,
                        done: false,
                    },
                    (fuel - steps) as nat,
                ) == target,
            invariant
                nodes@.len() == parents@.len(),
                nodes@.len() == children@.len(),
                cur < nodes@.len(),
                steps <= fuel,
                cursor@.source == src,
                src == source@,
                tree_wf(arena_view(nodes@, parents@, children@)),
                texts_match(arena_view(nodes@, parents@, children@), src),
                target == walk_run(src, walk_start(src), fuel as nat),
            ensures
                nodes@.len() == parents@.len(),
                nodes@.len() == children@.len(),
                tree_wf(arena_view(nodes@, parents@, children@)),
                texts_match(arena_view(nodes@, parents@, children@), src),
                arena_view(nodes@, parents@, children@) == target.nodes,
            decreases fuel - steps,
        {
            if steps >= fuel {
                proof {
                    let last = WalkState {
                        nodes: arena_view(nodes@, parents@, children@),
                        cur: cur as int,
                        path: cursor@.path,
                        done: false,
                    };
                    assert(walk_run(src, last, 0) == last);
                }
                break;
            }
            let ghost before = WalkState {
                nodes: arena_view(nodes@, parents@, children@),
                cur: cur as int,
                path: cursor@.path,
                done: false,
            };
            let ghost next = walk_step(src, before);
            assert(walk_run(src, before, (fuel - steps) as nat) == walk_run(
                src,
                next,
                (fuel - steps - 1) as nat,
            ));
            steps = steps + 1;
            if goto_first_child(&mut cursor) {
                let idx = nodes.len();
                let n = read_node(&cursor, source);
                proof {
                    lemma_read_under(n, src, cursor@.path, Some(cur));
                }
                Self::add_node(&mut nodes, &mut parents, &mut children, n, cur, Ghost(src));
                cur = idx;
                assert(next == WalkState {
                    nodes: arena_view(nodes@, parents@, children@),
                    cur: cur as int,
                    path: cursor@.path,
                    done: false,
                });
            } else {
                let finished = Self::climb_to_next(
                    &mut cursor,
                    &mut nodes,
                    &mut parents,
                    &mut children,
                    &mut cur,
                    source,
                );
                if finished {
                    assert(next.done);
                    assert(walk_run(src, next, (fuel - steps) as nat) == next);
                    break;
                }
            }
        }
        proof {
            assert(arena_view(nodes@, parents@, children@) == java_tree(src));
        }
        SyntaxTree { nodes, parents, children }
    }

    /// From node `cur` climbs towards the root until a node has a next
    /// sibling, and appends that sibling; returns whether the root was
    /// reached instead.
    fn climb_to_next(
        cursor: &mut Cursor,
        nodes: &mut Vec<SyntaxNode>,
        parents: &mut Vec<Option<usize>>,
        children: &mut Vec<Vec<usize>>,
        cur: &mut usize,
        source: &str,
    ) -> (finished: bool)
        requires
            old(nodes)@.len() == old(parents)@.len(),
            old(nodes)@.len() == old(children)@.len(),
            *old(cur) < old(nodes)@.len(),
            old(cursor)@.source == source@,
            tree_wf(arena_view(old(nodes)@, old(parents)@, old(children)@)),
            texts_match(arena_view(old(nodes)@, old(parents)@, old(children)@), source@),
        ensures
            final(nodes)@.len() == final(parents)@.len(),
            final(nodes)@.len() == final(children)@.len(),
            *final(cur) < final(nodes)@.len(),
            final(cursor)@.source == source@,
            tree_wf(arena_view(final(nodes)@, final(parents)@, final(children)@)),
            texts_match(arena_view(final(nodes)@, final(parents)@, final(children)@), source@),
            climb(
                source@,
                arena_view(old(nodes)@, old(parents)@, old(children)@),
                *old(cur) as int,
                old(cursor)@.path,
            ) == (WalkState {
                nodes: arena_view(final(nodes)@, final(parents)@, final(children)@),
                cur: *final(cur) as int,
                path: final(cursor)@.path,
                done: finished,
            }),
    {
        let ghost src = source@;
        let ghost target = climb(src, arena_view(nodes@, parents@, children@), *cur as int, cursor@.path);
        loop
            invariant
                nodes@.len() == parents@.len(),
                nodes@.len() == children@.len(),
                *cur < nodes@.len(),
                cursor@.source == src,
                src == source@,
                tree_wf(arena_view(nodes@, parents@, children@)),
                texts_match(arena_view(nodes@, parents@, children@), src),
                climb(src, arena_view(nodes@, parents@, children@), *cur as int, cursor@.path) == target,
                target == climb(
                    src,
                    arena_view(old(nodes)@, old(parents)@, old(children)@),
                    *old(cur) as int,
                    old(cursor)@.path,
                ),
            decreases *cur,
        {
            if *cur == 0 {
                return true;
            }
            let ghost v = arena_view(nodes@, parents@, children@);
            proof {
                assert(v[*cur as int].parent matches Some(p) && (p as int) < *cur);
            }
            let p = parents[*cur].unwrap();
            if goto_next_sibling(cursor) {
                let idx = nodes.len();
                let n = read_node(cursor, source);
                proof {
                    lemma_read_under(n, src, cursor@.path, Some(p));
                }
                Self::add_node(nodes, parents, children, n, p, Ghost(src));
                *cur = idx;
                return false;
            }
            goto_parent(cursor);
            *cur = p;
        }
    }

    /// Appends a node under `parent`.
    fn add_node(
        nodes: &mut Vec<SyntaxNode>,
        parents: &mut Vec<Option<usize>>,
        children: &mut Vec<Vec<usize>>,
        node: SyntaxNode,
        parent: usize,
        Ghost(source): Ghost<Seq<char>>,
    )
        requires
            old(nodes)@.len() == old(parents)@.len(),
            old(nodes)@.len() == old(children)@.len(),
            parent < old(nodes)@.len(),
            tree_wf(arena_view(old(nodes)@, old(parents)@, old(children)@)),
            texts_match(arena_view(old(nodes)@, old(parents)@, old(children)@), source),
            node.text@ == byte_slice(source, node.start_byte as nat, node.end_byte as nat),
        ensures
            final(nodes)@.len() == old(nodes)@.len() + 1,
            final(nodes)@.len() == final(parents)@.len(),
            final(nodes)@.len() == final(children)@.len(),
            tree_wf(arena_view(final(nodes)@, final(parents)@, final(children)@)),
            texts_match(arena_view(final(nodes)@, final(parents)@, final(children)@), source),
            arena_view(final(nodes)@, final(parents)@, final(children)@) == add_child(
                arena_view(old(nodes)@, old(parents)@, old(children)@),
                node.view_in(Some(parent), Seq::empty()),
                parent as int,
            ),
    {
        let ghost old_v = arena_view(nodes@, parents@, children@);
        let idx = nodes.len();
        nodes.push(node);
        parents.push(Some(parent));
        children.push(Vec::new());
        children[parent].push(idx);
        let ghost v = arena_view(nodes@, parents@, children@);
        assert forall|i: int| 0 <= i < old_v.len() && i != parent implies #[trigger] v[i] == old_v[i] by {}
        assert(v[parent as int].children == old_v[parent as int].children.push(idx));
        assert forall|i: int| 0 <= i < old_v.len() implies #[trigger] v[i].parent == old_v[i].parent
            && v[i].text == old_v[i].text && v[i].start_byte == old_v[i].start_byte && v[i].end_byte
            == old_v[i].end_byte by {}
        assert(v[idx as int].parent == Some(parent));
        assert(v.len() >= 1);
        assert(v[0].parent is None);
        assert forall|i: int| 0 < i < v.len() implies (#[trigger] v[i].parent matches Some(p) && (p
            as int) < i) by {
            if i < old_v.len() {
                assert(old_v[i].parent matches Some(p) && (p as int) < i);
            }
        }
        assert forall|i: int, k: int|
            0 <= i < v.len() && 0 <= k < v[i].children.len() implies {
                let c = #[trigger] v[i].children[k];
                &&& (c as int) < v.len()
                &&& v[c as int].parent == Some(i as usize)
            } by {
            if i < old_v.len() && i != parent {
                assert(v[i] == old_v[i]);
                let c = old_v[i].children[k];
                assert(v[c as int].parent == old_v[c as int].parent);
            } else if i == parent {
                if k < old_v[i].children.len() {
                    let c = old_v[i].children[k];
                    assert(v[c as int].parent == old_v[c as int].parent);
                }
            }
        }
        assert forall|i: int| 0 <= i < v.len() implies (#[trigger] v[i]).text == byte_slice(
            source,
            v[i].start_byte as nat,
            v[i].end_byte as nat,
        ) by {
            if i < old_v.len() {
                assert(v[i].text == old_v[i].text);
            }
        }
    }

    /// Number of nodes.
    pub fn len(&self) -> (n: usize)
        ensures
            n == self@.len(),
            tree_wf(self@),
    {
        proof {
            use_type_invariant(self);
        }
        self.nodes.len()
    }

    /// The grammar symbol of node `i`.
    pub fn kind(&self, i: usize) -> (r: &str)
        requires
            i < self@.len(),
        ensures
            r@ == self@[i as int].kind,
    {
        self.nodes[i].kind.as_str()
    }

    /// The text of node `i`.
    pub fn text(&self, i: usize) -> (r: &str)
        requires
            i < self@.len(),
        ensures
            r@ == self@[i as int].text,
    {
        self.nodes[i].text.as_str()
    }

    /// The node at `i`.
    pub fn node(&self, i: usize) -> (r: &SyntaxNode)
        requires
            i < self@.len(),
        ensures
            r.view_in(self@[i as int].parent, self@[i as int].children) == self@[i as int],
    {
        &self.nodes[i]
    }

    /// The children of node `i`, in order.
    pub fn children(&self, i: usize) -> (r: &Vec<usize>)
        requires
            i < self@.len(),
        ensures
            r@ == self@[i as int].children,
            forall|k: int| 0 <= k < r@.len() ==> (#[trigger] r@[k] as int) < self@.len(),
    {
        proof {
            use_type_invariant(self);
        }
        &self.children[i]
    }

    /// The parent of node `i`.
    pub fn parent(&self, i: usize) -> (r: Option<usize>)
        requires
            i < self@.len(),
        ensures
            r == self@[i as int].parent,
            r matches Some(p) ==> p < i,
    {
        proof {
            use_type_invariant(self);
        }
        self.parents[i]
    }

    /// Whether node `i` has one of the given kinds.
    pub fn kind_is_one_of(&self, i: usize, kinds: &Vec<&str>) -> (b: bool)
        requires
            i < self@.len(),
        ensures
            b == str_views(kinds@).contains(self@[i as int].kind),
    {
        let n = kinds.len();
        for j in 0..n
            invariant
                n == kinds@.len(),
                i < self@.len(),
                forall|m: int| 0 <= m < j ==> str_views(kinds@)[m] != self@[i as int].kind,
        {
            if str_eq(self.nodes[i].kind.as_str(), kinds[j]) {
                assert(str_views(kinds@)[j as int] == self@[i as int].kind);
                return true;
            }
        }
        false
    }

    /// The nodes of the given kind, in preorder.
    pub fn find_nodes_by_kind(&self, kind: &str) -> (r: Vec<usize>)
        ensures
            r@ == nodes_of_kind(self@, kind@),
            forall|k: int| 0 <= k < r@.len() ==> (#[trigger] r@[k] as int) < self@.len(),
    {
        let mut r: Vec<usize> = Vec::new();
        let n = self.nodes.len();
        for i in 0..n
            invariant
                n == self@.len(),
                r@ == kind_indices(self@, kind@, i as int),
                forall|k: int| 0 <= k < r@.len() ==> (#[trigger] r@[k] as int) < i,
        {
            if str_eq(self.nodes[i].kind.as_str(), kind) {
                r.push(i);
            }
        }
        r
    }

    /// The first child of node `i` whose kind is one of `kinds`.
    pub fn first_child_of_kinds(&self, i: usize, kinds: &Vec<&str>) -> (r: Option<usize>)
        requires
            i < self@.len(),
        ensures
            r == first_child_of_kinds(self@, i, str_views(kinds@)),
            r matches Some(c) ==> (c as int) < self@.len(),
    {
        let cs = self.children(i);
        let n = cs.len();
        let ghost all = cs@;
        assert(all.skip(0) =~= all);
        for k in 0..n
            invariant
                n == all.len(),
                all == cs@,
                all == self@[i as int].children,
                i < self@.len(),
                forall|m: int| 0 <= m < all.len() ==> (#[trigger] all[m] as int) < self@.len(),
                first_of_kinds(self@, all, str_views(kinds@)) == first_of_kinds(
                    self@,
                    all.skip(k as int),
                    str_views(kinds@),
                ),
        {
            let c = cs[k];
            assert(all.skip(k as int)[0] == c);
            assert(all.skip(k as int).drop_first() =~= all.skip(k + 1));
            if self.kind_is_one_of(c, kinds) {
                return Some(c);
            }
        }
        assert(all.skip(n as int).len() == 0);
        None
    }

    /// The first child of node `i` under the given field.
    pub fn child_by_field_name(&self, i: usize, field: &str) -> (r: Option<usize>)
        requires
            i < self@.len(),
        ensures
            r == field_child(self@, i, field@),
            r matches Some(c) ==> (c as int) < self@.len(),
    {
        let cs = self.children(i);
        let n = cs.len();
        let ghost all = cs@;
        assert(all.skip(0) =~= all);
        for k in 0..n
            invariant
                n == all.len(),
                all == cs@,
                all == self@[i as int].children,
                i < self@.len(),
                forall|m: int| 0 <= m < all.len() ==> (#[trigger] all[m] as int) < self@.len(),
                first_with_field(self@, all, field@) == first_with_field(
                    self@,
                    all.skip(k as int),
                    field@,
                ),
        {
            let c = cs[k];
            assert(all.skip(k as int)[0] == c);
            assert(all.skip(k as int).drop_first() =~= all.skip(k + 1));
            let matches = match &self.nodes[c].field {
                Some(f) => str_eq(f.as_str(), field),
                None => false,
            };
            if matches {
                return Some(c);
            }
        }
        assert(all.skip(n as int).len() == 0);
        None
    }

    /// The nearest proper ancestor of node `i` whose kind is one of `kinds`.
    pub fn nearest_ancestor(&self, i: usize, kinds: &Vec<&str>) -> (r: Option<usize>)
        requires
            i < self@.len(),
        ensures
            r == nearest_ancestor(self@, i, str_views(kinds@)),
            r matches Some(a) ==> a < i,
    {
        let mut cur = i;
        loop
            invariant
                cur <= i < self@.len(),
                nearest_ancestor(self@, i, str_views(kinds@)) == nearest_ancestor(
                    self@,
                    cur,
                    str_views(kinds@),
                ),
            decreases cur,
        {
            match self.parent(cur) {
                None => return None,
                Some(p) => {
                    if self.kind_is_one_of(p, kinds) {
                        return Some(p);
                    }
                    cur = p;
                },
            }
        }
    }
}

} // verus!

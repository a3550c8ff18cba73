//! Looking into syntax trees: an outline of the tree, nodes by kind and
//! their text.

use vstd::prelude::*;

use crate::syntax::{byte_slice, nodes_of_kind, slice_text, tree_wf, NodeView, SyntaxTree};
use crate::text::{chars_of, concat2, concat3, decimal, string_of, usize_to_string};

verus! {

/// The nodes of the given kind, in preorder.
pub fn find_nodes_by_kind(tree: &SyntaxTree, kind: &str) -> (r: Vec<usize>)
    ensures
        r@ == nodes_of_kind(tree@, kind@),
        forall|k: int| 0 <= k < r@.len() ==> (#[trigger] r@[k] as int) < tree@.len(),
{
    tree.find_nodes_by_kind(kind)
}

/// The text of a node: the source text of its byte range (empty when the
/// range does not fit the source).
pub fn node_text(tree: &SyntaxTree, node: usize, source: &str) -> (r: String)
    requires
        node < tree@.len(),
    ensures
        r@ == byte_slice(source@, tree@[node as int].start_byte as nat, tree@[node as int].end_byte as nat),
{
    let n = tree.node(node);
    slice_text(source, n.start_byte, n.end_byte)
}

/// `s` with each line feed written as `\n`.
pub open spec fn escape_newlines(s: Seq<char>) -> Seq<char>
    decreases s.len(),
{
    if s.len() == 0 {
        Seq::empty()
    } else {
        escape_newlines(s.drop_last()) + if s.last() == '\n' {
            seq!['\\', 'n']
        } else {
            seq![s.last()]
        }
    }
}

/// Two spaces per level.
pub open spec fn indent(depth: nat) -> Seq<char> {
    Seq::new(2 * depth, |k: int| ' ')
}

/// Whether a node's text is shown: it has no children, or it lies on one
/// row and spans fewer than 50 columns.
pub open spec fn shows_text(n: NodeView) -> bool {
    n.children.len() == 0 || (n.end_row == n.start_row && n.end_column >= n.start_column && n.end_column
        - n.start_column < 50)
}

/// The outline line of a node: indented by depth, its kind, its span as
/// `row:column - row:column`, and for a short node its text in brackets
/// with line feeds escaped.
pub open spec fn outline_line(n: NodeView, depth: nat, source: Seq<char>) -> Seq<char> {
    indent(depth) + n.kind + " ("@ + decimal(n.start_row as nat) + ":"@ + decimal(n.start_column as nat) + " - "@
        + decimal(n.end_row as nat) + ":"@ + decimal(n.end_column as nat) + ")"@ + (if shows_text(n) {
        " ["@ + escape_newlines(byte_slice(source, n.start_byte as nat, n.end_byte as nat)) + "]"@
    } else {
        Seq::empty()
    }) + "\n"@
}

/// The outline of node `i` and its descendants, from `depth` on, down to
/// depth `max`.
pub open spec fn outline(t: Seq<NodeView>, i: int, depth: nat, max: nat, source: Seq<char>) -> Seq<char>
    decreases t.len() - i, 1nat, 0int,
{
    if depth > max || i < 0 || i >= t.len() {
        Seq::empty()
    } else {
        outline_line(t[i], depth, source) + outline_children(
            t,
            i,
            t[i].children.len() as int,
            depth + 1,
            max,
            source,
        )
    }
}

/// The outlines of the first `k` children of node `i`.
pub open spec fn outline_children(t: Seq<NodeView>, i: int, k: int, depth: nat, max: nat, source: Seq<char>) -> Seq<char>
    decreases t.len() - i, 0nat, k,
{
    if k <= 0 || i < 0 || i >= t.len() || k > t[i].children.len() {
        Seq::empty()
    } else {
        let c = t[i].children[k - 1] as int;
        outline_children(t, i, k - 1, depth, max, source) + if i < c < t.len() {
            outline(t, c, depth, max, source)
        } else {
            Seq::empty()
        }
    }
}

/// `s` with each line feed written as `\n`.
fn escape_newlines_exec(s: &str) -> (r: String)
    ensures
        r@ == escape_newlines(s@),
{
    let cs = chars_of(s);
    let mut out: Vec<char> = Vec::new();
    let n = cs.len();
    for k in 0..n
        invariant
            n == cs@.len(),
            cs@ == s@,
            out@ == escape_newlines(cs@.take(k as int)),
    {
        assert(cs@.take(k + 1).drop_last() =~= cs@.take(k as int));
        if cs[k] == '\n' {
            out.push('\\');
            out.push('n');
        } else {
            out.push(cs[k]);
        }
        assert(out@ =~= escape_newlines(cs@.take(k + 1)));
    }
    assert(cs@.take(n as int) =~= cs@);
    string_of(out.as_slice())
}

/// The outline line of node `i`.
fn outline_line_exec(tree: &SyntaxTree, i: usize, depth: usize, source: &str) -> (r: String)
    requires
        i < tree@.len(),
    ensures
        r@ == outline_line(tree@[i as int], depth as nat, source@),
{
    let n = tree.node(i);
    let mut spaces: Vec<char> = Vec::new();
    let mut d: usize = 0;
    while d < depth
        invariant
            d <= depth,
            spaces@ == indent(d as nat),
        decreases depth - d,
    {
        spaces.push(' ');
        spaces.push(' ');
        d = d + 1;
        assert(spaces@ =~= indent(d as nat));
    }
    let mut line = string_of(spaces.as_slice());
    line = concat3(line.as_str(), n.kind.as_str(), " (");
    line = concat3(line.as_str(), usize_to_string(n.start_row).as_str(), ":");
    line = concat3(line.as_str(), usize_to_string(n.start_column).as_str(), " - ");
    line = concat3(line.as_str(), usize_to_string(n.end_row).as_str(), ":");
    line = concat3(line.as_str(), usize_to_string(n.end_column).as_str(), ")");
    let short = tree.children(i).len() == 0 || (n.end_row == n.start_row && n.end_column >= n.start_column
        && n.end_column - n.start_column < 50);
    if short {
        let text = escape_newlines_exec(slice_text(source, n.start_byte, n.end_byte).as_str());
        line = concat3(line.as_str(), " [", text.as_str());
        line = concat2(line.as_str(), "]");
    }
    concat2(line.as_str(), "\n")
}

/// Appends the outline of node `i` and its descendants.
fn outline_node(tree: &SyntaxTree, i: usize, depth: usize, max: usize, source: &str, out: &mut String)
    requires
        i < tree@.len(),
        tree_wf(tree@),
        depth <= i,
    ensures
        final(out)@ == old(out)@ + outline(tree@, i as int, depth as nat, max as nat, source@),
    decreases tree@.len() - i,
{
    if depth > max {
        return;
    }
    let line = outline_line_exec(tree, i, depth, source);
    out.append(line.as_str());
    let ghost start = out@;
    let children = tree.children(i);
    let m = children.len();
    for k in 0..m
        invariant
            i < tree@.len(),
            tree_wf(tree@),
            depth <= i,
            depth <= max,
            children@ == tree@[i as int].children,
            m == children@.len(),
            out@ == start + outline_children(tree@, i as int, k as int, (depth + 1) as nat, max as nat, source@),
    {
        let c = children[k];
        proof {
            assert(tree@[i as int].children[k as int] == c);
            assert(tree@[c as int].parent == Some(i));
        }
        let ghost before = out@;
        outline_node(tree, c, depth + 1, max, source, out);
        assert(out@ =~= start + outline_children(tree@, i as int, k + 1, (depth + 1) as nat, max as nat, source@));
    }
}

/// An outline of the tree, one line per node in preorder, indented by
/// depth, down to depth `max_depth` (all of it when none is given): each
/// node's kind, its span, and for a short node its text.
pub fn print_ast(tree: &SyntaxTree, source: &str, max_depth: Option<usize>) -> (r: String)
    ensures
        r@ == outline(
            tree@,
            0,
            0,
            match max_depth {
                Some(m) => m as nat,
                None => usize::MAX as nat,
            },
            source@,
        ),
{
    let n = tree.len();
    let max = match max_depth {
        Some(m) => m,
        None => usize::MAX,
    };
    let mut out = String::new();
    outline_node(tree, 0, 0, max, source, &mut out);
    assert(out@ =~= outline(tree@, 0, 0, max as nat, source@));
    out
}

} // verus!

//! The path-map tree of the workspace rail: files the session touched,
//! depth first, two spaces of indent per level; directories in the accent
//! with a `/` suffix, files dimmed. An empty tree is a muted placeholder.

use vstd::prelude::*;
use crate::segment::{lit, push_seg, seg, Segment, Tone};
use crate::text::{append_str, owned};

verus! {

/// A node of the tree.
#[derive(Debug)]
pub struct TreeNode {
    pub name: String,
    pub is_dir: bool,
    pub children: Vec<TreeNode>,
}

/// The tree: its top-level nodes.
#[derive(Debug, Default)]
pub struct TreeModel {
    pub roots: Vec<TreeNode>,
}

/// Two spaces per level of depth.
pub open spec fn indent(depth: nat) -> Seq<char>
    decreases depth,
{
    if depth == 0 { Seq::empty() } else { indent((depth - 1) as nat) + "  "@ }
}

/// A node's row: indented name, a directory in bold accent with `/`, a
/// file dimmed.
pub open spec fn node_row(n: TreeNode, depth: nat) -> (Seq<char>, Tone, bool) {
    if n.is_dir {
        (indent(depth) + n.name@ + "/"@, Tone::Orange, true)
    } else {
        seg(indent(depth) + n.name@, Tone::Dim)
    }
}

/// The rows of a list of sibling nodes at `depth`, each followed by its
/// children one level deeper.
pub open spec fn forest_rows(ns: Seq<TreeNode>, depth: nat) -> Seq<(Seq<char>, Tone, bool)>
    decreases ns,
{
    if ns.len() == 0 {
        Seq::empty()
    } else {
        proof {
            assert(decreases_to!(ns => ns[ns.len() - 1]));
            assert(decreases_to!(ns[ns.len() - 1] => ns[ns.len() - 1].children));
        }
        forest_rows(ns.drop_last(), depth) + seq![node_row(ns.last(), depth)]
            + forest_rows(ns.last().children@, depth + 1)
    }
}

/// The rows of the tree, or the placeholder for an empty one.
pub open spec fn tree_rows(t: TreeModel) -> Seq<(Seq<char>, Tone, bool)> {
    if t.roots@.len() == 0 {
        seq![seg("no files touched yet"@, Tone::Muted)]
    } else {
        forest_rows(t.roots@, 0)
    }
}

fn push_forest(nodes: &Vec<TreeNode>, pad: &str, Ghost(depth): Ghost<nat>, out: &mut Vec<Segment>)
    requires
        pad@ == indent(depth),
    ensures
        final(out)@.map_values(|x: Segment| x@) == old(out)@.map_values(|x: Segment| x@) + forest_rows(nodes@, depth),
    decreases nodes@,
{
    let ghost start = out@.map_values(|x: Segment| x@);
    let mut inner = owned(pad);
    append_str(&mut inner, "  ");
    assert(inner@ == indent(depth + 1));
    let mut i: usize = 0;
    assert(nodes@.take(0) =~= Seq::<TreeNode>::empty());
    while i < nodes.len()
        invariant
            i <= nodes.len(),
            pad@ == indent(depth),
            inner@ == indent(depth + 1),
            out@.map_values(|x: Segment| x@) == start + forest_rows(nodes@.take(i as int), depth),
        decreases nodes.len() - i,
    {
        let n = &nodes[i];
        let mut label = owned(pad);
        append_str(&mut label, n.name.as_str());
        if n.is_dir {
            append_str(&mut label, "/");
            push_seg(out, Segment { text: label, tone: Tone::Orange, bold: true });
        } else {
            push_seg(out, Segment { text: label, tone: Tone::Dim, bold: false });
        }
        proof {
            assert(decreases_to!(nodes@ => nodes@[i as int]));
            assert(decreases_to!(nodes@[i as int] => nodes@[i as int].children));
        }
        push_forest(&n.children, inner.as_str(), Ghost(depth + 1), out);
        proof {
            let t = nodes@.take(i + 1);
            assert(t.drop_last() =~= nodes@.take(i as int));
            assert(t.last() == nodes@[i as int]);
        }
        i += 1;
    }
    assert(nodes@.take(nodes.len() as int) =~= nodes@);
}

/// The rows of the path-map tree.
pub fn path_tree(tree: &TreeModel) -> (r: Vec<Segment>)
    ensures
        r@.map_values(|x: Segment| x@) == tree_rows(*tree),
{
    let mut out: Vec<Segment> = Vec::new();
    if tree.roots.len() == 0 {
        push_seg(&mut out, lit("no files touched yet", Tone::Muted));
        return out;
    }
    proof {
        reveal_strlit("");
        assert(indent(0) =~= ""@);
    }
    push_forest(&tree.roots, "", Ghost(0), &mut out);
    out
}

} // verus!

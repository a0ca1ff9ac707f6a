//! Laws of the variable projection: which nodes have a row, where the row
//! of a node stands, and what changing one node does to the rows.

use vstd::prelude::*;
use crate::seq_facts::lemma_splice;
use crate::variables::{
    forest_rows, forest_with, node_at, node_rows, path_visible, row_key, row_of, toggle_node,
    toggled, tree_rows, NodeView, RowView, VariableTree,
};

verus! {

/// The rows of the nodes of `nodes` from index `lo` up to, not including,
/// `hi`.
pub open spec fn rows_between(nodes: Seq<NodeView>, prefix: Seq<int>, lo: int, hi: int) -> Seq<
    RowView,
>
    decreases hi - lo,
{
    if lo < 0 || hi > nodes.len() || hi <= lo {
        Seq::empty()
    } else {
        rows_between(nodes, prefix, lo, hi - 1) + node_rows(nodes[hi - 1], prefix.push(hi - 1))
    }
}

/// The rows of the first `count` nodes are the rows from index zero up to
/// `count`.
pub proof fn lemma_rows_from_zero(nodes: Seq<NodeView>, prefix: Seq<int>, count: nat)
    requires
        count <= nodes.len(),
    ensures
        forest_rows(nodes, prefix, count) == rows_between(nodes, prefix, 0, count as int),
    decreases count,
{
    if count > 0 {
        lemma_rows_from_zero(nodes, prefix, (count - 1) as nat);
        let i = (count - 1) as int;
        assert(forest_rows(nodes, prefix, count) =~= forest_rows(nodes, prefix, (count - 1) as nat)
            + node_rows(nodes[i], prefix.push(i)));
    }
}

/// The rows of a range are those of its two parts, one after the other.
pub proof fn lemma_rows_split(nodes: Seq<NodeView>, prefix: Seq<int>, lo: int, mid: int, hi: int)
    requires
        0 <= lo <= mid <= hi <= nodes.len(),
    ensures
        rows_between(nodes, prefix, lo, hi) == rows_between(nodes, prefix, lo, mid) + rows_between(
            nodes,
            prefix,
            mid,
            hi,
        ),
    decreases hi - mid,
{
    if hi > mid {
        lemma_rows_split(nodes, prefix, lo, mid, hi - 1);
        assert(rows_between(nodes, prefix, lo, hi) =~= rows_between(nodes, prefix, lo, mid)
            + rows_between(nodes, prefix, mid, hi));
    } else {
        assert(rows_between(nodes, prefix, lo, hi) =~= rows_between(nodes, prefix, lo, mid)
            + rows_between(nodes, prefix, mid, hi));
    }
}

/// The rows of a range depend on the nodes of that range alone.
pub proof fn lemma_rows_same_nodes(
    a: Seq<NodeView>,
    b: Seq<NodeView>,
    prefix: Seq<int>,
    lo: int,
    hi: int,
)
    requires
        0 <= lo <= hi <= a.len(),
        a.len() == b.len(),
        forall|i: int| lo <= i < hi ==> a[i] == b[i],
    ensures
        rows_between(a, prefix, lo, hi) == rows_between(b, prefix, lo, hi),
    decreases hi - lo,
{
    if hi > lo {
        lemma_rows_same_nodes(a, b, prefix, lo, hi - 1);
    }
}

/// The rows of a forest with one node replaced: those before the node,
/// those of the new node, and those behind the node.
pub proof fn lemma_rows_around(nodes: Seq<NodeView>, prefix: Seq<int>, i: int, node: NodeView)
    requires
        0 <= i < nodes.len(),
    ensures
        forest_rows(nodes.update(i, node), prefix, nodes.len()) == rows_between(
            nodes,
            prefix,
            0,
            i,
        ) + node_rows(node, prefix.push(i)) + rows_between(nodes, prefix, i + 1, nodes.len() as int),
{
    let changed = nodes.update(i, node);
    let n = nodes.len() as int;
    lemma_rows_from_zero(changed, prefix, nodes.len());
    lemma_rows_split(changed, prefix, 0, i + 1, n);
    lemma_rows_same_nodes(changed, nodes, prefix, 0, i);
    lemma_rows_same_nodes(changed, nodes, prefix, i + 1, n);
    assert(rows_between(changed, prefix, 0, i + 1) =~= rows_between(changed, prefix, 0, i)
        + node_rows(changed[i], prefix.push(i)));
}

/// How many rows a run of nodes has does not depend on where it stands.
pub proof fn lemma_row_count(nodes: Seq<NodeView>, p: Seq<int>, q: Seq<int>, count: nat)
    ensures
        forest_rows(nodes, p, count).len() == forest_rows(nodes, q, count).len(),
    decreases nodes, count,
{
    if count == 0 || count > nodes.len() {
    } else {
        let i = (count - 1) as int;
        lemma_row_count(nodes, p, q, (count - 1) as nat);
        if nodes[i].expanded {
            lemma_row_count(nodes[i].children, p.push(i), q.push(i), nodes[i].children.len());
        }
    }
}

/// Replacing a node leaves the number of nodes on every level as it was.
pub proof fn lemma_forest_with_len(nodes: Seq<NodeView>, path: Seq<int>, node: NodeView)
    ensures
        forest_with(nodes, path, node).len() == nodes.len(),
    decreases path.len(),
{
}

/// Replacing a node by itself changes nothing.
pub proof fn lemma_forest_with_same(nodes: Seq<NodeView>, path: Seq<int>)
    requires
        node_at(nodes, path) is Some,
    ensures
        forest_with(nodes, path, node_at(nodes, path).unwrap()) == nodes,
    decreases path.len(),
{
    let i = path[0];
    if path.len() == 1 {
        assert(nodes.update(i, nodes[i]) =~= nodes);
    } else {
        lemma_forest_with_same(nodes[i].children, path.skip(1));
        assert(nodes.update(i, nodes[i]) =~= nodes);
    }
}

/// The number of rows that stand before the row of the node at `path`,
/// where that node has a row.
pub open spec fn row_index(nodes: Seq<NodeView>, path: Seq<int>) -> int
    decreases path.len(),
{
    if path.len() == 0 || !(0 <= path[0] < nodes.len()) {
        0
    } else {
        forest_rows(nodes, Seq::empty(), path[0] as nat).len() + if path.len() == 1 {
            0
        } else {
            1 + row_index(nodes[path[0]].children, path.skip(1))
        }
    }
}

/// What replacing a visible node does to the rows.
///
/// The rows of the node at `path`, its own and those of its visible
/// descendants, stand in one block that starts at `row_index`. After the
/// node is replaced by `node`, the rows before the block and the rows
/// behind it are what they were, and the block is that of `node`.
pub proof fn lemma_replace_visible(
    nodes: Seq<NodeView>,
    prefix: Seq<int>,
    path: Seq<int>,
    node: NodeView,
)
    requires
        path_visible(nodes, path),
    ensures
        node_at(nodes, path) is Some,
        ({
            let rows = forest_rows(nodes, prefix, nodes.len());
            let k = row_index(nodes, path);
            let block = node_rows(node_at(nodes, path).unwrap(), prefix + path);
            &&& 0 <= k
            &&& k + block.len() <= rows.len()
            &&& rows.subrange(k, k + block.len()) == block
            &&& forest_rows(forest_with(nodes, path, node), prefix, nodes.len()) == rows.take(k)
                + node_rows(node, prefix + path) + rows.skip(k + block.len())
        }),
    decreases path.len(),
{
    let i = path[0];
    let pi = prefix.push(i);
    let len = nodes.len() as int;
    let parent = nodes[i];
    let rows = forest_rows(nodes, prefix, nodes.len());
    let head = rows_between(nodes, prefix, 0, i);
    let tail = rows_between(nodes, prefix, i + 1, len);
    lemma_rows_around(nodes, prefix, i, parent);
    assert(nodes.update(i, parent) =~= nodes);
    lemma_rows_from_zero(nodes, prefix, i as nat);
    lemma_row_count(nodes, prefix, Seq::empty(), i as nat);
    let at = prefix + path;
    let none = Seq::<RowView>::empty();
    if path.len() == 1 {
        assert(at =~= pi);
        let block = node_rows(parent, at);
        lemma_rows_around(nodes, prefix, i, node);
        lemma_splice(head, block, tail, 0, block.len() as int, node_rows(node, at));
        assert(block.subrange(0, block.len() as int) =~= block);
        assert(block.take(0) + node_rows(node, at) + block.skip(block.len() as int) =~= node_rows(
            node,
            at,
        ));
    } else {
        let rest = path.skip(1);
        let kids = parent.children;
        lemma_replace_visible(kids, pi, rest, node);
        assert(pi + rest =~= at);
        let inner = forest_rows(kids, pi, kids.len());
        let k2 = row_index(kids, rest);
        let block = node_rows(node_at(kids, rest).unwrap(), at);
        let new_kids = forest_with(kids, rest, node);
        lemma_forest_with_len(kids, rest, node);
        let new_inner = forest_rows(new_kids, pi, kids.len());
        let new_parent = NodeView { children: new_kids, ..parent };
        assert(forest_with(nodes, path, node) == nodes.update(i, new_parent));
        lemma_rows_around(nodes, prefix, i, new_parent);
        let own = seq![row_of(parent, pi)];
        assert(node_rows(parent, pi) == own + inner);
        assert(node_rows(new_parent, pi) == own + new_inner);
        lemma_splice(head + own, inner, tail, k2, block.len() as int, node_rows(node, at));
        assert(head + node_rows(parent, pi) + tail =~= (head + own) + inner + tail);
        assert(head + node_rows(new_parent, pi) + tail =~= (head + own) + new_inner + tail);
    }
}

/// Replacing a node that has no row, because one of its ancestors is
/// collapsed, leaves the rows as they were.
pub proof fn lemma_replace_hidden(
    nodes: Seq<NodeView>,
    prefix: Seq<int>,
    path: Seq<int>,
    node: NodeView,
)
    requires
        node_at(nodes, path) is Some,
        !path_visible(nodes, path),
    ensures
        forest_rows(forest_with(nodes, path, node), prefix, nodes.len()) == forest_rows(
            nodes,
            prefix,
            nodes.len(),
        ),
    decreases path.len(),
{
    let i = path[0];
    let pi = prefix.push(i);
    let parent = nodes[i];
    let rest = path.skip(1);
    let new_kids = forest_with(parent.children, rest, node);
    let new_parent = NodeView { children: new_kids, ..parent };
    lemma_forest_with_len(parent.children, rest, node);
    lemma_rows_around(nodes, prefix, i, parent);
    lemma_rows_around(nodes, prefix, i, new_parent);
    assert(nodes.update(i, parent) =~= nodes);
    if parent.expanded {
        lemma_replace_hidden(parent.children, pi, rest, node);
    }
    assert(node_rows(new_parent, pi) == node_rows(parent, pi));
}

/// The path of the node that the row at index `k` shows, among the rows of
/// the first `count` nodes of `nodes`.
pub open spec fn row_path(nodes: Seq<NodeView>, count: nat, k: int) -> Seq<int>
    decreases nodes, count,
{
    if count == 0 || count > nodes.len() {
        Seq::empty()
    } else {
        let i = (count - 1) as int;
        let before = forest_rows(nodes, Seq::empty(), i as nat).len();
        if k < before {
            row_path(nodes, i as nat, k)
        } else if k == before {
            seq![i]
        } else {
            seq![i] + row_path(nodes[i].children, nodes[i].children.len(), k - before - 1)
        }
    }
}

/// Every row shows a node all of whose ancestors are expanded: the node at
/// `row_path`. The row carries the path, the fields and the level of that
/// node, and stands at the `row_index` of its path.
pub proof fn lemma_row_shows_visible_node(
    nodes: Seq<NodeView>,
    prefix: Seq<int>,
    count: nat,
    k: int,
)
    requires
        count <= nodes.len(),
        0 <= k < forest_rows(nodes, prefix, count).len(),
    ensures
        ({
            let q = row_path(nodes, count, k);
            &&& path_visible(nodes, q)
            &&& q[0] < count
            &&& node_at(nodes, q) is Some
            &&& forest_rows(nodes, prefix, count)[k] == row_of(
                node_at(nodes, q).unwrap(),
                prefix + q,
            )
            &&& row_index(nodes, q) == k
        }),
    decreases nodes, count,
{
    let i = (count - 1) as int;
    let pi = prefix.push(i);
    let rows = forest_rows(nodes, prefix, count);
    let head = forest_rows(nodes, prefix, i as nat);
    lemma_row_count(nodes, prefix, Seq::empty(), i as nat);
    let before = head.len() as int;
    let q = row_path(nodes, count, k);
    if k < before {
        lemma_row_shows_visible_node(nodes, prefix, i as nat, k);
        assert(rows[k] == head[k]);
    } else if k == before {
        assert(prefix + q =~= pi);
    } else {
        let kids = nodes[i].children;
        let inner = forest_rows(kids, pi, kids.len());
        assert(nodes[i].expanded);
        assert(rows =~= head + seq![row_of(nodes[i], pi)] + inner);
        let k2 = k - before - 1;
        lemma_row_shows_visible_node(kids, pi, kids.len(), k2);
        let q2 = row_path(kids, kids.len(), k2);
        assert(q.skip(1) =~= q2);
        assert(prefix + q =~= pi + q2);
        assert(rows[k] == inner[k2]);
    }
}

/// Whether `rows` holds a row for the node at `path`.
pub open spec fn has_row(rows: Seq<RowView>, path: Seq<int>) -> bool {
    exists|k: int| 0 <= k < rows.len() && (#[trigger] rows[k]).path == path
}

/// A node has a row exactly when all its ancestors are expanded. The root
/// scopes, which have no ancestors, always have one.
pub proof fn lemma_row_iff_visible(roots: Seq<NodeView>, path: Seq<int>)
    ensures
        has_row(tree_rows(roots), path) <==> path_visible(roots, path),
        path.len() == 1 && 0 <= path[0] < roots.len() ==> has_row(tree_rows(roots), path),
{
    let rows = tree_rows(roots);
    let none = Seq::<int>::empty();
    if has_row(rows, path) {
        let k = choose|k: int| 0 <= k < rows.len() && (#[trigger] rows[k]).path == path;
        lemma_row_shows_visible_node(roots, none, roots.len(), k);
        assert(none + row_path(roots, roots.len(), k) =~= row_path(roots, roots.len(), k));
    }
    if path_visible(roots, path) {
        lemma_replace_visible(roots, none, path, node_at(roots, path).unwrap());
        assert(none + path =~= path);
        let k = row_index(roots, path);
        let block = node_rows(node_at(roots, path).unwrap(), path);
        assert(rows.subrange(k, k + block.len())[0] == block[0]);
        assert(rows[k].path == path);
    }
}

/// The row of a visible node: it stands at `row_index`, shows the fields of
/// the node, and its level is the number of ancestors of the node. No other
/// row has its path.
pub proof fn lemma_row_of_visible(roots: Seq<NodeView>, path: Seq<int>)
    requires
        path_visible(roots, path),
    ensures
        node_at(roots, path) is Some,
        0 <= row_index(roots, path) < tree_rows(roots).len(),
        tree_rows(roots)[row_index(roots, path)] == row_of(node_at(roots, path).unwrap(), path),
        tree_rows(roots)[row_index(roots, path)].level == path.len() - 1,
        forall|k: int|
            0 <= k < tree_rows(roots).len() && (#[trigger] tree_rows(roots)[k]).path == path ==> k
                == row_index(roots, path),
{
    let rows = tree_rows(roots);
    let none = Seq::<int>::empty();
    lemma_replace_visible(roots, none, path, node_at(roots, path).unwrap());
    assert(none + path =~= path);
    let at = row_index(roots, path);
    let block = node_rows(node_at(roots, path).unwrap(), path);
    assert(rows.subrange(at, at + block.len())[0] == block[0]);
    assert forall|k: int| 0 <= k < rows.len() && (#[trigger] rows[k]).path == path implies k
        == at by {
        lemma_row_shows_visible_node(roots, none, roots.len(), k);
        assert(none + row_path(roots, roots.len(), k) =~= row_path(roots, roots.len(), k));
    }
}

/// The children of a visible node stand right behind it exactly when it is
/// expanded: its row is followed by the rows of its children, in their
/// order and one level deeper, and a collapsed node has no such rows.
pub proof fn lemma_children_follow(roots: Seq<NodeView>, path: Seq<int>)
    requires
        path_visible(roots, path),
    ensures
        node_at(roots, path) is Some,
        ({
            let n = node_at(roots, path).unwrap();
            let rows = tree_rows(roots);
            let k = row_index(roots, path);
            let below = if n.expanded {
                forest_rows(n.children, path, n.children.len())
            } else {
                Seq::<RowView>::empty()
            };
            &&& k + 1 + below.len() <= rows.len()
            &&& rows.subrange(k + 1, k + 1 + below.len()) == below
            &&& forall|i: int|
                0 <= i < n.children.len() ==> (has_row(rows, #[trigger] path.push(i))
                    <==> n.expanded)
        }),
{
    let n = node_at(roots, path).unwrap();
    let rows = tree_rows(roots);
    let none = Seq::<int>::empty();
    lemma_replace_visible(roots, none, path, n);
    assert(none + path =~= path);
    let k = row_index(roots, path);
    let block = node_rows(n, path);
    let below = if n.expanded {
        forest_rows(n.children, path, n.children.len())
    } else {
        Seq::<RowView>::empty()
    };
    assert(block =~= seq![row_of(n, path)] + below);
    assert(rows.subrange(k + 1, k + 1 + below.len()) =~= rows.subrange(
        k,
        k + block.len(),
    ).skip(1));
    assert(block.skip(1) =~= below);
    assert forall|i: int| 0 <= i < n.children.len() implies (has_row(rows, #[trigger] path.push(i))
        <==> n.expanded) by {
        lemma_row_iff_visible(roots, path.push(i));
        lemma_visible_child(roots, path, i);
    }
}

/// A child of a visible node is visible exactly when the node is expanded.
pub proof fn lemma_visible_child(nodes: Seq<NodeView>, path: Seq<int>, i: int)
    requires
        path_visible(nodes, path),
        node_at(nodes, path) is Some,
        0 <= i < node_at(nodes, path).unwrap().children.len(),
    ensures
        path_visible(nodes, path.push(i)) <==> node_at(nodes, path).unwrap().expanded,
    decreases path.len(),
{
    let child = path.push(i);
    if path.len() == 1 {
        assert(child.skip(1) =~= seq![i]);
        assert(child[0] == path[0]);
        assert(path_visible(nodes[path[0]].children, seq![i]));
    } else {
        assert(child.skip(1) =~= path.skip(1).push(i));
        assert(child[0] == path[0]);
        lemma_visible_child(nodes[path[0]].children, path.skip(1), i);
    }
}

/// Toggling a visible node changes the rows of that node and of nothing
/// else: the rows before its block and behind it, those of its siblings
/// among them, stay as they are, and its block becomes that of the toggled
/// node. Expanding adds the rows of its subtree, collapsing takes them out.
pub proof fn lemma_toggle_visible(roots: Seq<NodeView>, path: Seq<int>)
    requires
        path_visible(roots, path),
    ensures
        node_at(roots, path) is Some,
        ({
            let n = node_at(roots, path).unwrap();
            let rows = tree_rows(roots);
            let k = row_index(roots, path);
            let block = node_rows(n, path);
            &&& 0 <= k
            &&& k + block.len() <= rows.len()
            &&& rows.subrange(k, k + block.len()) == block
            &&& tree_rows(toggled(roots, path)) == rows.take(k) + node_rows(toggle_node(n), path)
                + rows.skip(k + block.len())
        }),
{
    let none = Seq::<int>::empty();
    let n = node_at(roots, path).unwrap();
    lemma_replace_visible(roots, none, path, n);
    lemma_replace_visible(roots, none, path, toggle_node(n));
    lemma_forest_with_len(roots, path, toggle_node(n));
    assert(none + path =~= path);
}

/// Toggling a node that has no row leaves the rows as they were, and so
/// does toggling a path that leads to no node.
pub proof fn lemma_toggle_hidden(roots: Seq<NodeView>, path: Seq<int>)
    requires
        !path_visible(roots, path),
    ensures
        tree_rows(toggled(roots, path)) == tree_rows(roots),
{
    if node_at(roots, path) is Some {
        let n = node_at(roots, path).unwrap();
        lemma_replace_hidden(roots, Seq::empty(), path, toggle_node(n));
        lemma_forest_with_len(roots, path, toggle_node(n));
    }
}

/// Flattening again gives the same: the rows, and with them their keys,
/// depend on the value of the tree alone, so two trees of one value, or one
/// tree flattened twice, have the same rows with the same keys.
pub proof fn lemma_flatten_again(first: VariableTree, second: VariableTree)
    requires
        first@ == second@,
    ensures
        tree_rows(first@) == tree_rows(second@),
        tree_rows(first@).map_values(|r: RowView| row_key(r)) == tree_rows(second@).map_values(
            |r: RowView| row_key(r),
        ),
{
}

/// Two rows with different keys differ, and rows of one path with the same
/// key are the same row: the key changes whenever what a row shows changes.
pub proof fn lemma_key_tells_rows_apart(a: RowView, b: RowView)
    ensures
        row_key(a) != row_key(b) ==> a != b,
        a.path == b.path && row_key(a) == row_key(b) ==> a == b,
{
}

} // verus!

//! The navigator: which nodes of a tree have a visible row, and in which order.

use crate::tree::{lemma_node_views, node_views, rows_of, rows_under, Node, NodeView, RowView, Tree};
use vstd::prelude::*;

verus! {

/// The node that a path of child positions leads to.
pub open spec fn node_at(nodes: Seq<NodeView>, path: Seq<usize>) -> Option<NodeView>
    decreases path.len(),
{
    if path.len() == 0 || path[0] >= nodes.len() {
        None
    } else if path.len() == 1 {
        Some(nodes[path[0] as int])
    } else {
        match nodes[path[0] as int] {
            NodeView::Group { children, .. } => node_at(children, path.skip(1)),
            NodeView::Leaf { .. } => None,
        }
    }
}

/// All groups above a path, from depth `from` on, are open.
pub open spec fn open_above(path: Seq<usize>, from: int, open: Set<Seq<usize>>) -> bool {
    forall|m: int| from < m < path.len() ==> open.contains(#[trigger] path.take(m))
}

/// A row shows a node: how deep it lies, its label, whether it is an open group, and
/// where a click leads.
pub open spec fn row_shows(
    row: RowView,
    n: NodeView,
    path: Seq<usize>,
    open: Set<Seq<usize>>,
) -> bool {
    match n {
        NodeView::Group { label, .. } => row == (RowView::Group {
            depth: path.len() - 1,
            path,
            expanded: open.contains(path),
            label,
        }),
        NodeView::Leaf { label, leaf_id } => row == (RowView::Leaf {
            depth: path.len() - 1,
            leaf_id,
            label,
        }),
    }
}

/// Path `a` stands above path `b`: it leads to a group around `b`, or turns off to an
/// earlier child.
pub open spec fn stands_above(a: Seq<usize>, b: Seq<usize>) -> bool {
    exists|k: int| #[trigger] parts_at(a, b, k)
}

/// The paths agree up to position `k`, and there `a` ends or turns to an earlier
/// child.
pub open spec fn parts_at(a: Seq<usize>, b: Seq<usize>, k: int) -> bool {
    &&& 0 <= k <= a.len()
    &&& k < b.len()
    &&& forall|i: int| 0 <= i < k ==> #[trigger] a[i] == b[i]
    &&& k == a.len() || a[k] < b[k]
}

/// No list of nodes, here or below, is longer than the machine can count.
pub open spec fn countable(nodes: Seq<NodeView>, k: int) -> bool
    decreases nodes, k,
    when k <= nodes.len()
{
    nodes.len() <= usize::MAX && (k <= 0 || (countable(nodes, k - 1) && (match nodes[k - 1] {
        NodeView::Group { children, .. } => countable(children, children.len() as int),
        NodeView::Leaf { .. } => true,
    })))
}

/// `paths` tells which node each row shows: exactly those whose groups are all open,
/// from top to bottom.
pub open spec fn rows_show(
    rows: Seq<RowView>,
    nodes: Seq<NodeView>,
    open: Set<Seq<usize>>,
    paths: Seq<Seq<usize>>,
) -> bool {
    &&& paths.len() == rows.len()
    &&& forall|i: int|
        0 <= i < paths.len() ==> {
            &&& node_at(nodes, #[trigger] paths[i]) is Some
            &&& open_above(paths[i], 0, open)
            &&& row_shows(rows[i], node_at(nodes, paths[i])->0, paths[i], open)
        }
    &&& forall|i: int, j: int|
        0 <= i < j < paths.len() ==> stands_above(#[trigger] paths[i], #[trigger] paths[j])
    &&& forall|p: Seq<usize>| #[trigger]
        node_at(nodes, p) is Some && open_above(p, 0, open) ==> paths.contains(p)
}

// ---- proofs ----------------------------------------------------------------

/// The paths of the visible rows of one node.
spec fn paths_of(n: NodeView, path: Seq<usize>, open: Set<Seq<usize>>) -> Seq<Seq<usize>>
    decreases n, 0int,
{
    match n {
        NodeView::Group { children, .. } => if open.contains(path) {
            seq![path] + paths_under(children, path, open, children.len() as int)
        } else {
            seq![path]
        },
        NodeView::Leaf { .. } => seq![path],
    }
}

/// The paths of the visible rows of the first `k` nodes below `path`.
spec fn paths_under(
    nodes: Seq<NodeView>,
    path: Seq<usize>,
    open: Set<Seq<usize>>,
    k: int,
) -> Seq<Seq<usize>>
    decreases nodes, k,
    when k <= nodes.len()
{
    if k <= 0 {
        Seq::empty()
    } else {
        paths_under(nodes, path, open, k - 1) + paths_of(
            nodes[k - 1],
            path.push((k - 1) as usize),
            open,
        )
    }
}

/// `p` leads below `prefix` to a node at or below child `lo..hi`, through open
/// groups.
spec fn leads(
    nodes: Seq<NodeView>,
    prefix: Seq<usize>,
    open: Set<Seq<usize>>,
    p: Seq<usize>,
    lo: int,
    hi: int,
) -> bool {
    let d = prefix.len() as int;
    &&& p.len() > d
    &&& p.take(d) == prefix
    &&& lo <= p[d] < hi
    &&& node_at(nodes, p.skip(d)) is Some
    &&& open_above(p, d, open)
}

spec fn covered(
    nodes: Seq<NodeView>,
    prefix: Seq<usize>,
    open: Set<Seq<usize>>,
    lo: int,
    hi: int,
    paths: Seq<Seq<usize>>,
    rows: Seq<RowView>,
) -> bool {
    &&& paths.len() == rows.len()
    &&& forall|i: int|
        0 <= i < paths.len() ==> leads(nodes, prefix, open, #[trigger] paths[i], lo, hi) && row_shows(
            rows[i],
            node_at(nodes, paths[i].skip(prefix.len() as int))->0,
            paths[i],
            open,
        )
    &&& forall|i: int, j: int|
        0 <= i < j < paths.len() ==> stands_above(#[trigger] paths[i], #[trigger] paths[j])
    &&& forall|p: Seq<usize>| #[trigger]
        leads(nodes, prefix, open, p, lo, hi) ==> paths.contains(p)
}

/// Two paths below one prefix that turn to different children are in the order of
/// the children.
proof fn lemma_siblings(prefix: Seq<usize>, a: Seq<usize>, b: Seq<usize>)
    requires
        a.len() > prefix.len(),
        b.len() > prefix.len(),
        a.take(prefix.len() as int) == prefix,
        b.take(prefix.len() as int) == prefix,
        a[prefix.len() as int] < b[prefix.len() as int],
    ensures
        stands_above(a, b),
{
    let d = prefix.len() as int;
    assert forall|i: int| 0 <= i < d implies #[trigger] a[i] == b[i] by {
        assert(a.take(d)[i] == a[i]);
        assert(b.take(d)[i] == b[i]);
    }
    assert(parts_at(a, b, d));
}

proof fn lemma_concat(
    nodes: Seq<NodeView>,
    prefix: Seq<usize>,
    open: Set<Seq<usize>>,
    mid: int,
    hi: int,
    p: Seq<Seq<usize>>,
    r: Seq<RowView>,
    q: Seq<Seq<usize>>,
    t: Seq<RowView>,
)
    requires
        covered(nodes, prefix, open, 0, mid, p, r),
        covered(nodes, prefix, open, mid, hi, q, t),
        0 <= mid <= hi,
    ensures
        covered(nodes, prefix, open, 0, hi, p + q, r + t),
{
    let paths = p + q;
    let rows = r + t;
    assert forall|i: int| 0 <= i < paths.len() implies leads(
        nodes,
        prefix,
        open,
        #[trigger] paths[i],
        0,
        hi,
    ) && row_shows(
        rows[i],
        node_at(nodes, paths[i].skip(prefix.len() as int))->0,
        paths[i],
        open,
    ) by {
        if i < p.len() {
            assert(paths[i] == p[i]);
            assert(rows[i] == r[i]);
            assert(leads(nodes, prefix, open, p[i], 0, mid));
        } else {
            assert(paths[i] == q[i - p.len()]);
            assert(rows[i] == t[i - p.len()]);
            assert(leads(nodes, prefix, open, q[i - p.len()], mid, hi));
        }
    }
    assert forall|i: int, j: int| 0 <= i < j < paths.len() implies stands_above(
        #[trigger] paths[i],
        #[trigger] paths[j],
    ) by {
        if j < p.len() {
            assert(stands_above(p[i], p[j]));
        } else if i >= p.len() {
            assert(stands_above(q[i - p.len()], q[j - p.len()]));
        } else {
            assert(leads(nodes, prefix, open, p[i], 0, mid));
            assert(leads(nodes, prefix, open, q[j - p.len()], mid, hi));
            lemma_siblings(prefix, paths[i], paths[j]);
        }
    }
    assert forall|x: Seq<usize>| #[trigger] leads(nodes, prefix, open, x, 0, hi) implies
        paths.contains(x) by {
        if x[prefix.len() as int] < mid {
            assert(leads(nodes, prefix, open, x, 0, mid));
            let k = choose|k: int| 0 <= k < p.len() && p[k] == x;
            assert(paths[k] == x);
        } else {
            assert(leads(nodes, prefix, open, x, mid, hi));
            let k = choose|k: int| 0 <= k < q.len() && q[k] == x;
            assert(paths[p.len() + k] == x);
        }
    }
}

/// A path below child `c` leads on from that child.
proof fn lemma_step(
    nodes: Seq<NodeView>,
    children: Seq<NodeView>,
    prefix: Seq<usize>,
    open: Set<Seq<usize>>,
    c: int,
    p: Seq<usize>,
)
    requires
        0 <= c < nodes.len(),
        c <= usize::MAX,
        nodes[c] is Group,
        nodes[c]->children == children,
        p.len() > prefix.len() + 1,
        p.take(prefix.len() as int) == prefix,
        p[prefix.len() as int] == c,
    ensures
        ({
            let below = prefix.push(c as usize);
            let d = prefix.len() as int;
            &&& p.take(d + 1) == below
            &&& node_at(nodes, p.skip(d)) == node_at(children, p.skip(d + 1))
            &&& open_above(p, d, open) <==> open.contains(below) && open_above(p, d + 1, open)
        }),
{
    let below = prefix.push(c as usize);
    let d = prefix.len() as int;
    assert forall|i: int| 0 <= i < d implies #[trigger] p[i] == prefix[i] by {
        assert(p.take(d)[i] == p[i]);
    }
    assert(p.take(d + 1) =~= below);
    assert(p.skip(d).skip(1) =~= p.skip(d + 1));
    assert(p.skip(d)[0] == p[d]);
    if open_above(p, d, open) {
        assert(open.contains(p.take(d + 1)));
    }
    if open.contains(below) && open_above(p, d + 1, open) {
        assert forall|m: int| d < m < p.len() implies open.contains(#[trigger] p.take(m)) by {
            if m == d + 1 {
                assert(p.take(m) == below);
            }
        }
    }
}

proof fn lemma_of(
    nodes: Seq<NodeView>,
    prefix: Seq<usize>,
    open: Set<Seq<usize>>,
    c: int,
)
    requires
        0 <= c < nodes.len(),
        nodes.len() <= usize::MAX,
        match nodes[c] {
            NodeView::Group { children, .. } => countable(children, children.len() as int),
            NodeView::Leaf { .. } => true,
        },
    ensures
        covered(
            nodes,
            prefix,
            open,
            c,
            c + 1,
            paths_of(nodes[c], prefix.push(c as usize), open),
            rows_of(nodes[c], prefix.push(c as usize), open),
        ),
    decreases nodes[c], 0int, 0int,
{
    let n = nodes[c];
    let path = prefix.push(c as usize);
    let d = prefix.len() as int;
    let paths = paths_of(n, path, open);
    let rows = rows_of(n, path, open);
    assert(path.take(d) =~= prefix);
    assert(path.skip(d) =~= seq![c as usize]);
    assert(node_at(nodes, path.skip(d)) == Some(n));
    assert(leads(nodes, prefix, open, path, c, c + 1));
    assert(paths[0] == path);
    assert(row_shows(rows[0], n, path, open));
    let deeper = match n {
        NodeView::Group { children, .. } => open.contains(path),
        NodeView::Leaf { .. } => false,
    };
    if deeper {
        let children = n->children;
        lemma_under(children, path, open, children.len() as int);
        let sub = paths_under(children, path, open, children.len() as int);
        let sub_rows = rows_under(children, path, open, children.len() as int);
        assert(paths =~= seq![path] + sub);
        assert(rows =~= seq![rows[0]] + sub_rows);
        assert forall|i: int| 0 <= i < paths.len() implies leads(
            nodes,
            prefix,
            open,
            #[trigger] paths[i],
            c,
            c + 1,
        ) && row_shows(rows[i], node_at(nodes, paths[i].skip(d))->0, paths[i], open) by {
            if i > 0 {
                let p = sub[i - 1];
                assert(paths[i] == p);
                assert(rows[i] == sub_rows[i - 1]);
                assert(leads(children, path, open, p, 0, children.len() as int));
                assert(p.take(d) =~= p.take(d + 1).take(d));
                assert(p.take(d) =~= prefix);
                assert(p.take(d + 1)[d] == p[d]);
                lemma_step(nodes, children, prefix, open, c, p);
            }
        }
        assert forall|i: int, j: int| 0 <= i < j < paths.len() implies stands_above(
            #[trigger] paths[i],
            #[trigger] paths[j],
        ) by {
            let b = sub[j - 1];
            assert(paths[j] == b);
            assert(leads(children, path, open, b, 0, children.len() as int));
            if i == 0 {
                assert forall|m: int| 0 <= m < d + 1 implies #[trigger] path[m] == b[m] by {
                    assert(b.take(d + 1)[m] == b[m]);
                }
                assert(parts_at(path, b, d + 1));
            } else {
                assert(paths[i] == sub[i - 1]);
            }
        }
        assert forall|p: Seq<usize>| #[trigger] leads(nodes, prefix, open, p, c, c + 1) implies
            paths.contains(p) by {
            if p.len() == d + 1 {
                assert forall|i: int| 0 <= i < d implies #[trigger] p[i] == prefix[i] by {
                    assert(p.take(d)[i] == p[i]);
                }
                assert(p =~= path);
            } else {
                lemma_step(nodes, children, prefix, open, c, p);
                let rel = p.skip(d + 1);
                assert(rel[0] == p[d + 1]);
                assert(leads(children, path, open, p, 0, children.len() as int));
                let k = choose|k: int| 0 <= k < sub.len() && sub[k] == p;
                assert(paths[k + 1] == p);
            }
        }
    } else {
        assert(paths =~= seq![path]);
        assert(rows.len() == 1);
        assert forall|p: Seq<usize>| #[trigger] leads(nodes, prefix, open, p, c, c + 1) implies
            paths.contains(p) by {
            assert forall|i: int| 0 <= i < d implies #[trigger] p[i] == prefix[i] by {
                assert(p.take(d)[i] == p[i]);
            }
            if p.len() > d + 1 {
                assert(p.take(d + 1) =~= path);
                assert(open.contains(p.take(d + 1)));
                assert(p.skip(d)[0] == p[d]);
            } else {
                assert(p =~= path);
            }
        }
    }
}

proof fn lemma_under(nodes: Seq<NodeView>, prefix: Seq<usize>, open: Set<Seq<usize>>, k: int)
    requires
        0 <= k <= nodes.len(),
        countable(nodes, k),
    ensures
        covered(
            nodes,
            prefix,
            open,
            0,
            k,
            paths_under(nodes, prefix, open, k),
            rows_under(nodes, prefix, open, k),
        ),
    decreases nodes, k, 1int,
{
    if k > 0 {
        lemma_under(nodes, prefix, open, k - 1);
        lemma_of(nodes, prefix, open, k - 1);
        lemma_concat(
            nodes,
            prefix,
            open,
            k - 1,
            k,
            paths_under(nodes, prefix, open, k - 1),
            rows_under(nodes, prefix, open, k - 1),
            paths_of(nodes[k - 1], prefix.push((k - 1) as usize), open),
            rows_of(nodes[k - 1], prefix.push((k - 1) as usize), open),
        );
    }
}

proof fn lemma_countable(v: Vec<Node>, k: int)
    requires
        0 <= k <= v@.len(),
    ensures
        node_views(v@).len() == v@.len(),
        countable(node_views(v@), k),
    decreases v, k,
{
    lemma_node_views(v@);
    assert(v.len() == v@.len());
    if k > 0 {
        lemma_countable(v, k - 1);
        match v@[k - 1] {
            Node::Group { label, children } => {
                lemma_countable(children, children@.len() as int);
            },
            Node::Leaf { .. } => {},
        }
    }
}

// ---- laws ------------------------------------------------------------------

/// Every tree that was built can be counted.
pub proof fn law_trees_are_countable(tree: Tree)
    ensures
        countable(tree@, tree@.len() as int),
{
    lemma_countable(tree.roots, tree.roots@.len() as int);
}

/// The navigator shows exactly the nodes all of whose groups are open, each once, a
/// group above what it holds and children in their order.
pub proof fn law_visible_rows(nodes: Seq<NodeView>, open: Set<Seq<usize>>) -> (paths: Seq<Seq<usize>>)
    requires
        countable(nodes, nodes.len() as int),
    ensures
        rows_show(
            rows_under(nodes, Seq::empty(), open, nodes.len() as int),
            nodes,
            open,
            paths,
        ),
{
    let n = nodes.len() as int;
    let none = Seq::<usize>::empty();
    lemma_under(nodes, none, open, n);
    let paths = paths_under(nodes, none, open, n);
    assert forall|p: Seq<usize>| #[trigger] p.skip(0) == p by {
        assert(p.skip(0) =~= p);
    }
    assert forall|p: Seq<usize>| #[trigger] node_at(nodes, p) is Some && open_above(p, 0, open) implies
        paths.contains(p) by {
        assert(p.skip(0) == p);
        assert(p.take(0) =~= none);
        assert(leads(nodes, none, open, p, 0, n));
    }
    paths
}

} // verus!

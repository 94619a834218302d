//! The navigator tree and its visible rows.

use crate::leaf::LeafId;
use vstd::prelude::*;

verus! {

/// A group of nodes, or a leaf that opens something.
#[derive(Debug)]
pub enum Node {
    Group { label: String, children: Vec<Node> },
    Leaf { label: String, leaf_id: LeafId },
}

/// What a node shows.
#[verifier::ext_equal]
pub ghost enum NodeView {
    Group { label: Seq<char>, children: Seq<NodeView> },
    Leaf { label: Seq<char>, leaf_id: LeafId },
}

/// What a node shows.
pub open spec fn node_view(n: Node) -> NodeView
    decreases n,
{
    match n {
        Node::Group { label, children } => NodeView::Group {
            label: label@,
            children: node_views(children@),
        },
        Node::Leaf { label, leaf_id } => NodeView::Leaf { label: label@, leaf_id },
    }
}

/// What a list of nodes shows.
pub open spec fn node_views(s: Seq<Node>) -> Seq<NodeView>
    decreases s,
{
    if s.len() == 0 {
        Seq::empty()
    } else {
        node_views(s.drop_last()).push(node_view(s.last()))
    }
}

/// The views of a list stand in the list's order.
pub proof fn lemma_node_views(s: Seq<Node>)
    ensures
        node_views(s).len() == s.len(),
        forall|i: int| 0 <= i < s.len() ==> #[trigger] node_views(s)[i] == node_view(s[i]),
    decreases s.len(),
{
    if s.len() > 0 {
        lemma_node_views(s.drop_last());
        assert forall|i: int| 0 <= i < s.len() implies #[trigger] node_views(s)[i] == node_view(
            s[i],
        ) by {
            if i < s.len() - 1 {
                assert(node_views(s)[i] == node_views(s.drop_last())[i]);
                assert(s.drop_last()[i] == s[i]);
            }
        }
    }
}

/// One more node at the end.
pub proof fn lemma_node_views_push(s: Seq<Node>, n: Node)
    ensures
        node_views(s.push(n)) == node_views(s).push(node_view(n)),
{
    assert(s.push(n).drop_last() =~= s);
}

/// Groups and leaves.
#[derive(Debug)]
pub struct Tree {
    pub roots: Vec<Node>,
}

impl View for Tree {
    type V = Seq<NodeView>;

    open spec fn view(&self) -> Seq<NodeView> {
        node_views(self.roots@)
    }
}

// ---- expanded groups -------------------------------------------------------

/// Which groups are open, by their path of child positions.
#[derive(Debug)]
pub struct Expanded {
    open: Vec<Vec<usize>>,
}

impl View for Expanded {
    type V = Set<Seq<usize>>;

    closed spec fn view(&self) -> Set<Seq<usize>> {
        Set::new(|p: Seq<usize>| exists|i: int| 0 <= i < self.open@.len() && self.open@[i]@ == p)
    }
}

/// Whether two paths are the same.
fn same_path(a: &Vec<usize>, b: &Vec<usize>) -> (r: bool)
    ensures
        r == (a@ == b@),
{
    if a.len() != b.len() {
        return false;
    }
    let mut i: usize = 0;
    while i < a.len()
        invariant
            a@.len() == b@.len(),
            i <= a@.len(),
            forall|k: int| 0 <= k < i ==> a@[k] == b@[k],
        decreases a@.len() - i,
    {
        if a[i] != b[i] {
            return false;
        }
        i += 1;
    }
    assert(a@ =~= b@);
    true
}

fn copy_path(p: &Vec<usize>) -> (r: Vec<usize>)
    ensures
        r@ == p@,
{
    let mut r: Vec<usize> = Vec::new();
    let mut i: usize = 0;
    while i < p.len()
        invariant
            i <= p@.len(),
            r@ == p@.take(i as int),
        decreases p@.len() - i,
    {
        r.push(p[i]);
        i += 1;
    }
    assert(p@.take(i as int) =~= p@);
    r
}

impl Expanded {
    /// No path is listed twice.
    pub closed spec fn wf(&self) -> bool {
        forall|i: int, j: int|
            0 <= i < j < self.open@.len() ==> (#[trigger] self.open@[i])@ != (
            #[trigger] self.open@[j])@
    }

    /// No group is open.
    pub fn new() -> (r: Expanded)
        ensures
            r.wf(),
            r@ == Set::<Seq<usize>>::empty(),
    {
        let r = Expanded { open: Vec::new() };
        assert(r@ =~= Set::empty());
        r
    }

    fn position(&self, path: &Vec<usize>) -> (r: Option<usize>)
        ensures
            match r {
                Some(i) => i < self.open@.len() && self.open@[i as int]@ == path@,
                None => forall|i: int| 0 <= i < self.open@.len() ==> (
                #[trigger] self.open@[i])@ != path@,
            },
    {
        let mut i: usize = 0;
        while i < self.open.len()
            invariant
                i <= self.open@.len(),
                forall|k: int| 0 <= k < i ==> (#[trigger] self.open@[k])@ != path@,
            decreases self.open@.len() - i,
        {
            if same_path(&self.open[i], path) {
                return Some(i);
            }
            i += 1;
        }
        None
    }

    /// Whether the group at `path` is open.
    pub fn contains(&self, path: &Vec<usize>) -> (r: bool)
        ensures
            r == self@.contains(path@),
    {
        self.position(path).is_some()
    }

    /// Opens the group at `path`, or closes it if it is open.
    pub fn toggle(&mut self, path: &Vec<usize>)
        requires
            old(self).wf(),
        ensures
            final(self).wf(),
            final(self)@ == toggled(old(self)@, path@),
    {
        match self.position(path) {
            Some(i) => {
                let ghost before = self.open@;
                let gone = self.open.swap_remove(i);
                proof {
                    let now = self.open@;
                    let last = before.len() - 1;
                    assert forall|p: Seq<usize>| #[trigger] self@.contains(p) <==> (old(
                        self,
                    )@.contains(p) && p != path@) by {
                        if self@.contains(p) {
                            let k = choose|k: int| 0 <= k < now.len() && now[k]@ == p;
                            if k == i {
                                assert(before[last]@ == p);
                            } else {
                                assert(before[k]@ == p);
                            }
                        }
                        if old(self)@.contains(p) && p != path@ {
                            let k = choose|k: int| 0 <= k < before.len() && before[k]@ == p;
                            if k == last {
                                assert(now[i as int]@ == p);
                            } else {
                                assert(now[k]@ == p);
                            }
                        }
                    }
                    assert(self@ =~= toggled(old(self)@, path@));
                }
            },
            None => {
                let ghost before = self.open@;
                self.open.push(copy_path(path));
                proof {
                    let now = self.open@;
                    assert forall|p: Seq<usize>| #[trigger] self@.contains(p) <==> (old(
                        self,
                    )@.contains(p) || p == path@) by {
                        if self@.contains(p) {
                            let k = choose|k: int| 0 <= k < now.len() && now[k]@ == p;
                            if k < before.len() {
                                assert(before[k]@ == p);
                            }
                        }
                        if old(self)@.contains(p) {
                            let k = choose|k: int| 0 <= k < before.len() && before[k]@ == p;
                            assert(now[k]@ == p);
                        }
                        assert(now[before.len() as int]@ == path@);
                    }
                    assert(self@ =~= toggled(old(self)@, path@));
                }
            },
        }
    }
}

/// `s` with `p` added, or removed if it was there.
pub open spec fn toggled(s: Set<Seq<usize>>, p: Seq<usize>) -> Set<Seq<usize>> {
    if s.contains(p) {
        s.remove(p)
    } else {
        s.insert(p)
    }
}

/// Toggling a group twice changes nothing; toggling once changes that group
/// alone.
pub proof fn law_toggle_twice(s: Set<Seq<usize>>, p: Seq<usize>, q: Seq<usize>)
    ensures
        toggled(toggled(s, p), p) == s,
        toggled(s, p).contains(p) == !s.contains(p),
        q != p ==> toggled(s, p).contains(q) == s.contains(q),
{
    assert(toggled(toggled(s, p), p) =~= s);
}

// ---- visible rows ----------------------------------------------------------

/// What one visible row shows.
#[derive(Debug)]
pub enum RowKind {
    Group { path: Vec<usize>, expanded: bool, label: String },
    Leaf { leaf_id: LeafId, label: String },
}

/// One visible row of the navigator.
#[derive(Debug)]
pub struct VisibleRow {
    pub depth: usize,
    pub kind: RowKind,
}

/// What one visible row shows, and how far it is indented.
#[verifier::ext_equal]
pub ghost enum RowView {
    Group { depth: int, path: Seq<usize>, expanded: bool, label: Seq<char> },
    Leaf { depth: int, leaf_id: LeafId, label: Seq<char> },
}

impl View for VisibleRow {
    type V = RowView;

    open spec fn view(&self) -> RowView {
        match self.kind {
            RowKind::Group { path, expanded, label } => RowView::Group {
                depth: self.depth as int,
                path: path@,
                expanded,
                label: label@,
            },
            RowKind::Leaf { leaf_id, label } => RowView::Leaf {
                depth: self.depth as int,
                leaf_id,
                label: label@,
            },
        }
    }
}

/// The views of a list of rows.
pub open spec fn row_views(rows: Seq<VisibleRow>) -> Seq<RowView> {
    rows.map_values(|r: VisibleRow| r@)
}

/// The visible rows of node `n` at `path`: itself, and below an open group its
/// children.
pub open spec fn rows_of(n: NodeView, path: Seq<usize>, open: Set<Seq<usize>>) -> Seq<RowView>
    decreases n, 0int,
{
    match n {
        NodeView::Group { label, children } => {
            let head = RowView::Group {
                depth: path.len() - 1,
                path,
                expanded: open.contains(path),
                label,
            };
            if open.contains(path) {
                seq![head] + rows_under(children, path, open, children.len() as int)
            } else {
                seq![head]
            }
        },
        NodeView::Leaf { label, leaf_id } => seq![
            RowView::Leaf { depth: path.len() - 1, leaf_id, label },
        ],
    }
}

/// The visible rows of the first `k` nodes in a list whose parent is at `path`.
pub open spec fn rows_under(
    nodes: Seq<NodeView>,
    path: Seq<usize>,
    open: Set<Seq<usize>>,
    k: int,
) -> Seq<RowView>
    decreases nodes, k,
    when k <= nodes.len()
{
    if k <= 0 {
        Seq::empty()
    } else {
        rows_under(nodes, path, open, k - 1) + rows_of(
            nodes[k - 1],
            path.push((k - 1) as usize),
            open,
        )
    }
}

/// Appends the visible rows of `node`, which stands at `path`.
fn walk(node: &Node, path: &mut Vec<usize>, expanded: &Expanded, out: &mut Vec<VisibleRow>)
    requires
        old(path)@.len() > 0,
    ensures
        final(path)@ == old(path)@,
        row_views(final(out)@) == row_views(old(out)@) + rows_of(
            node_view(*node),
            old(path)@,
            expanded@,
        ),
    decreases node,
{
    let ghost start = row_views(out@);
    let depth: usize = path.len() - 1;
    match node {
        Node::Group { label, children } => {
            let is_open = expanded.contains(path);
            let row = VisibleRow {
                depth,
                kind: RowKind::Group {
                    path: copy_path(path),
                    expanded: is_open,
                    label: label.clone(),
                },
            };
            let ghost head = row@;
            out.push(row);
            assert(row_views(out@) =~= start.push(head));
            let ghost cv = node_views(children@);
            proof {
                lemma_node_views(children@);
            }
            if is_open {
                let n: usize = children.len();
                let mut i: usize = 0;
                let ghost p0 = path@;
                assert(row_views(out@) =~= start + (seq![head] + rows_under(cv, p0, expanded@, 0)));
                while i < n
                    invariant
                        n == children@.len(),
                        cv == node_views(children@),
                        cv.len() == n,
                        forall|k: int| 0 <= k < n ==> #[trigger] cv[k] == node_view(children@[k]),
                        i <= n,
                        path@ == p0,
                        p0.len() > 0,
                        *node is Group,
                        node->children == *children,
                        row_views(out@) == start + (seq![head] + rows_under(
                            cv,
                            p0,
                            expanded@,
                            i as int,
                        )),
                    decreases n - i,
                {
                    let ghost before = row_views(out@);
                    path.push(i);
                    proof {
                        assert(decreases_to!(*node => node->children));
                        assert(decreases_to!(*children => children@));
                        assert(decreases_to!(children@ => children@[i as int]));
                        assert(cv[i as int] == node_view(children@[i as int]));
                    }
                    walk(&children[i], path, expanded, out);
                    let last = path.pop();
                    proof {
                        assert(path@ =~= p0);
                        assert(row_views(out@) =~= start + (seq![head] + rows_under(
                            cv,
                            p0,
                            expanded@,
                            i + 1,
                        )));
                    }
                    i += 1;
                }
            }
            assert(row_views(out@) =~= start + rows_of(node_view(*node), old(path)@, expanded@));
        },
        Node::Leaf { label, leaf_id } => {
            let row = VisibleRow {
                depth,
                kind: RowKind::Leaf { leaf_id: *leaf_id, label: label.clone() },
            };
            let ghost head = row@;
            out.push(row);
            assert(row_views(out@) =~= start.push(head));
            assert(row_views(out@) =~= start + rows_of(node_view(*node), old(path)@, expanded@));
        },
    }
}

/// The visible rows of a tree, top to bottom.
pub fn flatten(tree: &Tree, expanded: &Expanded) -> (out: Vec<VisibleRow>)
    ensures
        row_views(out@) == rows_under(tree@, Seq::empty(), expanded@, tree@.len() as int),
{
    let mut out: Vec<VisibleRow> = Vec::new();
    let n: usize = tree.roots.len();
    let ghost rv = tree@;
    proof {
        lemma_node_views(tree.roots@);
    }
    let mut i: usize = 0;
    assert(row_views(out@) =~= rows_under(rv, Seq::empty(), expanded@, 0));
    while i < n
        invariant
            n == tree.roots@.len(),
            rv == node_views(tree.roots@),
            rv.len() == n,
            forall|k: int| 0 <= k < n ==> #[trigger] rv[k] == node_view(tree.roots@[k]),
            i <= n,
            row_views(out@) == rows_under(rv, Seq::empty(), expanded@, i as int),
        decreases n - i,
    {
        let mut path: Vec<usize> = Vec::new();
        path.push(i);
        assert(path@ =~= Seq::<usize>::empty().push(i));
        assert(rv[i as int] == node_view(tree.roots@[i as int]));
        walk(&tree.roots[i], &mut path, expanded, &mut out);
        i += 1;
    }
    out
}

/// With no group open, each root shows as one row.
pub proof fn law_closed_tree_shows_its_roots(
    nodes: Seq<NodeView>,
    open: Set<Seq<usize>>,
    k: int,
)
    requires
        0 <= k <= nodes.len(),
        open == Set::<Seq<usize>>::empty(),
    ensures
        rows_under(nodes, Seq::empty(), open, k).len() == k,
    decreases k,
{
    if k > 0 {
        law_closed_tree_shows_its_roots(nodes, open, k - 1);
        let path = Seq::<usize>::empty().push((k - 1) as usize);
        assert(!open.contains(path));
        assert(rows_of(nodes[k - 1], path, open).len() == 1);
    }
}

} // verus!

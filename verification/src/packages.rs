//! Class names and the package tree they span.

use crate::leaf::LeafId;
use crate::order::{
    ascending, is_sorted_set, lemma_sorted_list, lemma_sorted_list_exists, sort_dedup, sorted_list, views,
};
use crate::text::{copy_range, join3, strings, substring, to_chars};
use crate::tree::{lemma_node_views, lemma_node_views_push, node_view, node_views, Node, NodeView};
use vstd::prelude::*;

verus! {

// ---- class names -----------------------------------------------------------

/// Position of the first `sep` at or after `i`, or the length if there is none.
pub open spec fn separator_from(t: Seq<char>, sep: char, i: int) -> int
    decreases t.len() - i,
{
    if i >= t.len() {
        t.len() as int
    } else if t[i] == sep {
        i
    } else {
        separator_from(t, sep, i + 1)
    }
}

/// The pieces of `t` from position `i` on, between the occurrences of `sep`.
pub open spec fn pieces_from(t: Seq<char>, sep: char, i: int) -> Seq<Seq<char>>
    decreases t.len() - i + 1,
    when 0 <= i <= t.len()
{
    let e = separator_from(t, sep, i);
    if i <= e < t.len() {
        seq![t.subrange(i, e)] + pieces_from(t, sep, e + 1)
    } else {
        seq![t.subrange(i, t.len() as int)]
    }
}

/// The class path inside a JNI class name: without the leading `L` and the
/// trailing `;`. A name without the trailing `;` stays whole.
pub open spec fn class_path(jni: Seq<char>) -> Seq<char> {
    let from = if jni.len() > 0 && jni[0] == 'L' {
        1int
    } else {
        0int
    };
    if jni.len() > from && jni.last() == ';' {
        jni.subrange(from, jni.len() - 1)
    } else {
        jni
    }
}

/// The parts of a JNI class name.
pub open spec fn class_parts(jni: Seq<char>) -> Seq<Seq<char>> {
    pieces_from(class_path(jni), '/', 0)
}

/// Splits `t` at every `sep`.
fn split_at_each(t: &Vec<char>, sep: char) -> (r: Vec<String>)
    ensures
        strings(r@) == pieces_from(t@, sep, 0),
{
    let n: usize = t.len();
    let mut out: Vec<String> = Vec::new();
    let mut start: usize = 0;
    assert(strings(out@) + pieces_from(t@, sep, 0) =~= pieces_from(t@, sep, 0));
    loop
        invariant
            n == t.len(),
            start <= n,
            strings(out@) + pieces_from(t@, sep, start as int) == pieces_from(
                t@,
                sep,
                0,
            ),
        decreases n - start,
    {
        let mut e: usize = start;
        while e < n && t[e] != sep
            invariant
                n == t.len(),
                start <= e <= n,
                separator_from(t@, sep, start as int) == separator_from(t@, sep, e as int),
            decreases n - e,
        {
            e += 1;
        }
        let ghost before = strings(out@);
        let piece = substring(t.as_slice(), start, e);
        let ghost view = piece@;
        out.push(piece);
        assert(strings(out@) =~= before.push(view));
        if e == n {
            assert(strings(out@) =~= before + pieces_from(t@, sep, start as int));
            return out;
        }
        assert(strings(out@) + pieces_from(t@, sep, e + 1) =~= before + pieces_from(
            t@,
            sep,
            start as int,
        ));
        start = e + 1;
    }
}

/// Splits `Lcom/example/Foo$Bar;` into `com`, `example` and `Foo$Bar`.
pub fn split_jni_class_name(jni: &str) -> (r: Vec<String>)
    ensures
        strings(r@) == class_parts(jni@),
{
    let t = to_chars(jni);
    let n: usize = t.len();
    let from: usize = if n > 0 && t[0] == 'L' {
        1
    } else {
        0
    };
    if n > from && t[n - 1] == ';' {
        let inner = copy_range(t.as_slice(), from, n - 1);
        split_at_each(&inner, '/')
    } else {
        split_at_each(&t, '/')
    }
}

// ---- package tree ----------------------------------------------------------

/// A class: the parts of its name and the leaf that shows it.
#[verifier::ext_equal]
pub ghost struct EntryView {
    pub parts: Seq<Seq<char>>,
    pub id: LeafId,
}

/// The packages that entries lie in: the first part of each name of two or more
/// parts.
pub open spec fn heads(entries: Seq<EntryView>) -> Seq<Seq<char>>
    decreases entries.len(),
{
    if entries.len() == 0 {
        Seq::empty()
    } else if entries.last().parts.len() >= 2 {
        heads(entries.drop_last()).push(entries.last().parts[0])
    } else {
        heads(entries.drop_last())
    }
}

/// The packages in ascending order, each once.
pub open spec fn package_names(entries: Seq<EntryView>) -> Seq<Seq<char>> {
    sorted_list::<String>(heads(entries))
}

/// The entries of package `name`, with their names shortened by it.
pub open spec fn inside(entries: Seq<EntryView>, name: Seq<char>) -> Seq<EntryView>
    decreases entries.len(),
{
    if entries.len() == 0 {
        Seq::empty()
    } else {
        let last = entries.last();
        if last.parts.len() >= 2 && last.parts[0] == name {
            inside(entries.drop_last(), name).push(
                EntryView { parts: last.parts.skip(1), id: last.id },
            )
        } else {
            inside(entries.drop_last(), name)
        }
    }
}

/// The leaves of the entries that lie directly at this level, in order.
pub open spec fn class_leaves(entries: Seq<EntryView>) -> Seq<NodeView>
    decreases entries.len(),
{
    if entries.len() == 0 {
        Seq::empty()
    } else {
        let last = entries.last();
        if last.parts.len() == 1 {
            class_leaves(entries.drop_last()).push(
                NodeView::Leaf { label: last.parts[0], leaf_id: last.id },
            )
        } else {
            class_leaves(entries.drop_last())
        }
    }
}

/// The number of name parts in all entries.
pub open spec fn weight(entries: Seq<EntryView>) -> nat
    decreases entries.len(),
{
    if entries.len() == 0 {
        0
    } else {
        weight(entries.drop_last()) + entries.last().parts.len()
    }
}

/// A package whose only child is a package shares one row with it:
/// `com`, `example` becomes `com.example`.
pub open spec fn collapsed(label: Seq<char>, children: Seq<NodeView>) -> NodeView
    decreases children,
{
    if children.len() == 1 {
        match children[0] {
            NodeView::Group { label: inner, children: kids } => collapsed(
                label + "."@ + inner,
                kids,
            ),
            NodeView::Leaf { .. } => NodeView::Group { label, children },
        }
    } else {
        NodeView::Group { label, children }
    }
}

/// The nodes of the first `k` packages in `names`.
pub open spec fn package_groups(entries: Seq<EntryView>, names: Seq<Seq<char>>, k: int) -> Seq<
    NodeView,
>
    decreases weight(entries), 0int, k,
{
    if k <= 0 {
        Seq::empty()
    } else {
        let before = package_groups(entries, names, k - 1);
        let sub = inside(entries, names[k - 1]);
        if weight(sub) < weight(entries) && package_nodes(sub).len() > 0 {
            before.push(collapsed(names[k - 1], package_nodes(sub)))
        } else {
            before
        }
    }
}

/// The nodes of a list of classes: the packages in ascending order, then the
/// classes directly at this level.
pub open spec fn package_nodes(entries: Seq<EntryView>) -> Seq<NodeView>
    decreases weight(entries), 1int, 0int,
{
    let names = package_names(entries);
    package_groups(entries, names, names.len() as int) + class_leaves(entries)
}

/// A package holds fewer name parts than the list it was taken from.
pub(crate) proof fn lemma_inside_is_lighter(entries: Seq<EntryView>, name: Seq<char>)
    ensures
        weight(inside(entries, name)) <= weight(entries),
        heads(entries).contains(name) ==> weight(inside(entries, name)) < weight(entries),
    decreases entries.len(),
{
    if entries.len() > 0 {
        let rest = entries.drop_last();
        lemma_inside_is_lighter(rest, name);
        let sub = inside(entries, name);
        let last = entries.last();
        if last.parts.len() >= 2 && last.parts[0] == name {
            assert(sub.drop_last() =~= inside(rest, name));
        } else if heads(entries).contains(name) {
            let i = choose|i: int| 0 <= i < heads(entries).len() && heads(entries)[i] == name;
            if last.parts.len() >= 2 {
                assert(heads(entries)[heads(rest).len() as int] == last.parts[0]);
                assert(i < heads(rest).len());
            }
            assert(heads(rest)[i] == name);
        }
    }
}

/// One class to place in the tree.
pub struct PkgEntry {
    parts: Vec<String>,
    id: LeafId,
}

impl View for PkgEntry {
    type V = EntryView;

    closed spec fn view(&self) -> EntryView {
        EntryView { parts: strings(self.parts@), id: self.id }
    }
}

fn parts_from(parts: &Vec<String>, from: usize) -> (r: Vec<String>)
    requires
        from <= parts@.len(),
    ensures
        strings(r@) == strings(parts@).skip(from as int),
{
    let mut r: Vec<String> = Vec::new();
    let mut i: usize = from;
    while i < parts.len()
        invariant
            from <= i <= parts@.len(),
            strings(r@) == strings(parts@).subrange(from as int, i as int),
        decreases parts@.len() - i,
    {
        let ghost before = strings(r@);
        r.push(parts[i].clone());
        assert(strings(r@) =~= before.push(parts@[i as int]@));
        assert(strings(r@) =~= strings(parts@).subrange(from as int, i + 1));
        i += 1;
    }
    assert(strings(r@) =~= strings(parts@).skip(from as int));
    r
}

fn collect_heads(entries: &Vec<PkgEntry>) -> (r: Vec<String>)
    ensures
        strings(r@) == heads(views(entries@)),
{
    let ghost ev = views(entries@);
    let mut r: Vec<String> = Vec::new();
    let mut i: usize = 0;
    assert(strings(r@) =~= heads(ev.take(0)));
    while i < entries.len()
        invariant
            ev == views(entries@),
            i <= entries@.len(),
            strings(r@) == heads(ev.take(i as int)),
        decreases entries@.len() - i,
    {
        let e = &entries[i];
        proof {
            assert(ev[i as int] == e@);
            assert(ev.take(i + 1).drop_last() =~= ev.take(i as int));
        }
        if e.parts.len() >= 2 {
            let ghost before = strings(r@);
            r.push(e.parts[0].clone());
            assert(strings(r@) =~= before.push(e@.parts[0]));
        }
        i += 1;
    }
    assert(ev.take(i as int) =~= ev);
    r
}

fn collect_inside(entries: &Vec<PkgEntry>, name: &String) -> (r: Vec<PkgEntry>)
    ensures
        views(r@) == inside(views(entries@), name@),
{
    let ghost ev = views(entries@);
    let mut r: Vec<PkgEntry> = Vec::new();
    let mut i: usize = 0;
    assert(views(r@) =~= inside(ev.take(0), name@));
    while i < entries.len()
        invariant
            ev == views(entries@),
            i <= entries@.len(),
            views(r@) == inside(ev.take(i as int), name@),
        decreases entries@.len() - i,
    {
        let e = &entries[i];
        proof {
            assert(ev[i as int] == e@);
            assert(ev.take(i + 1).drop_last() =~= ev.take(i as int));
        }
        if e.parts.len() >= 2 && e.parts[0] == *name {
            let ghost before = views(r@);
            let item = PkgEntry { parts: parts_from(&e.parts, 1), id: e.id };
            let ghost view = item@;
            r.push(item);
            assert(views(r@) =~= before.push(view));
        }
        i += 1;
    }
    assert(ev.take(i as int) =~= ev);
    r
}

/// The group of a package: chains of single packages share one row.
pub fn collapse_chain(label: String, children: Vec<Node>) -> (r: Node)
    ensures
        node_view(r) == collapsed(label@, node_views(children@)),
{
    let ghost target = collapsed(label@, node_views(children@));
    let mut name: String = label;
    let mut kids: Vec<Node> = children;
    while kids.len() == 1
        invariant
            target == collapsed(label@, node_views(children@)),
            target == collapsed(name@, node_views(kids@)),
        decreases kids@,
    {
        proof {
            lemma_node_views(kids@);
            assert(node_views(kids@)[0] == node_view(kids@[0]));
        }
        let ghost before = kids@;
        let only = kids.pop();
        match only {
            Some(Node::Group { label: inner, children: below }) => {
                proof {
                    assert(decreases_to!(before => before[0]));
                    assert(decreases_to!(before[0] => before[0]->children));
                    assert(decreases_to!(below => below@));
                }
                name = join3(name.as_str(), ".", inner.as_str());
                kids = below;
            },
            Some(Node::Leaf { label: inner, leaf_id }) => {
                kids.push(Node::Leaf { label: inner, leaf_id });
                proof {
                    assert(kids@ =~= before);
                    assert(node_view(before[0]) is Leaf);
                }
                return Node::Group { label: name, children: kids };
            },
            None => {},
        }
    }
    proof {
        lemma_node_views(kids@);
    }
    Node::Group { label: name, children: kids }
}

/// The nodes of a list of classes.
fn build_nodes(entries: &Vec<PkgEntry>) -> (out: Vec<Node>)
    ensures
        node_views(out@) == package_nodes(views(entries@)),
    decreases weight(views(entries@)),
{
    let ghost ev = views(entries@);
    let head_list = collect_heads(entries);
    let names = sort_dedup(&head_list);
    let ghost nv = views(names@);
    proof {
        assert(views(head_list@) =~= heads(ev));
        assert(is_sorted_set::<String>(nv, heads(ev)));
        lemma_sorted_list::<String>(heads(ev), nv);
    }
    let mut out: Vec<Node> = Vec::new();
    let mut k: usize = 0;
    while k < names.len()
        invariant
            ev == views(entries@),
            nv == views(names@),
            is_sorted_set::<String>(nv, heads(ev)),
            k <= names@.len(),
            node_views(out@) == package_groups(ev, nv, k as int),
        decreases names@.len() - k,
    {
        let name = &names[k];
        let sub = collect_inside(entries, name);
        proof {
            assert(nv[k as int] == name@);
            assert(nv.contains(name@));
            lemma_inside_is_lighter(ev, name@);
        }
        let children = build_nodes(&sub);
        proof {
            lemma_node_views(children@);
        }
        if children.len() > 0 {
            let group = collapse_chain(name.clone(), children);
            proof {
                lemma_node_views_push(out@, group);
            }
            out.push(group);
        }
        k += 1;
    }
    let ghost groups = node_views(out@);
    let mut i: usize = 0;
    assert(groups + class_leaves(ev.take(0)) =~= groups);
    while i < entries.len()
        invariant
            ev == views(entries@),
            i <= entries@.len(),
            node_views(out@) == groups + class_leaves(ev.take(i as int)),
        decreases entries@.len() - i,
    {
        let e = &entries[i];
        proof {
            assert(ev[i as int] == e@);
            assert(ev.take(i + 1).drop_last() =~= ev.take(i as int));
        }
        if e.parts.len() == 1 {
            let leaf = Node::Leaf { label: e.parts[0].clone(), leaf_id: e.id };
            proof {
                lemma_node_views_push(out@, leaf);
                assert(node_view(leaf) == (NodeView::Leaf {
                    label: e@.parts[0],
                    leaf_id: e@.id,
                }));
            }
            out.push(leaf);
            assert(node_views(out@) =~= groups + class_leaves(ev.take(i + 1)));
        }
        i += 1;
    }
    assert(ev.take(i as int) =~= ev);
    out
}

/// Collects classes and arranges them by package.
pub struct PkgBuilder {
    entries: Vec<PkgEntry>,
}

impl View for PkgBuilder {
    type V = Seq<EntryView>;

    closed spec fn view(&self) -> Seq<EntryView> {
        views(self.entries@)
    }
}

impl PkgBuilder {
    /// No class yet.
    pub fn new() -> (r: PkgBuilder)
        ensures
            r@ == Seq::<EntryView>::empty(),
    {
        let r = PkgBuilder { entries: Vec::new() };
        assert(r@ =~= Seq::empty());
        r
    }

    /// Adds the class with the given name parts.
    pub fn insert(&mut self, parts: &Vec<String>, id: LeafId)
        ensures
            final(self)@ == old(self)@.push(EntryView { parts: strings(parts@), id }),
    {
        let item = PkgEntry { parts: parts_from(parts, 0), id };
        let ghost view = item@;
        self.entries.push(item);
        proof {
            assert(strings(parts@).skip(0) =~= strings(parts@));
            assert(self@ =~= old(self)@.push(view));
        }
    }

    /// The package tree: packages in ascending order before classes in
    /// insertion order, at every level. Classes without a name show nowhere.
    pub fn finish(self) -> (out: Vec<Node>)
        ensures
            node_views(out@) == package_nodes(self@),
    {
        build_nodes(&self.entries)
    }
}

// ---- laws ------------------------------------------------------------------

/// How often leaf `id` stands below a node.
pub open spec fn leaf_count(n: NodeView, id: LeafId) -> int
    decreases n, 0int,
{
    match n {
        NodeView::Group { children, .. } => leaf_counts(children, id, children.len() as int),
        NodeView::Leaf { leaf_id, .. } => if leaf_id == id {
            1
        } else {
            0
        },
    }
}

/// How often leaf `id` stands below the first `k` nodes.
pub open spec fn leaf_counts(nodes: Seq<NodeView>, id: LeafId, k: int) -> int
    decreases nodes, k,
    when k <= nodes.len()
{
    if k <= 0 {
        0
    } else {
        leaf_counts(nodes, id, k - 1) + leaf_count(nodes[k - 1], id)
    }
}

/// How many named classes are shown by leaf `id`.
pub open spec fn entry_count(entries: Seq<EntryView>, id: LeafId) -> int
    decreases entries.len(),
{
    if entries.len() == 0 {
        0
    } else {
        entry_count(entries.drop_last(), id) + if entries.last().id == id
            && entries.last().parts.len() > 0 {
            1int
        } else {
            0int
        }
    }
}

/// How many of the classes directly at this level are shown by leaf `id`.
spec fn single_count(entries: Seq<EntryView>, id: LeafId) -> int
    decreases entries.len(),
{
    if entries.len() == 0 {
        0
    } else {
        single_count(entries.drop_last(), id) + if entries.last().id == id
            && entries.last().parts.len() == 1 {
            1int
        } else {
            0int
        }
    }
}

/// How many classes in the first `k` packages are shown by leaf `id`.
spec fn inside_counts(entries: Seq<EntryView>, names: Seq<Seq<char>>, id: LeafId, k: int) -> int
    decreases k,
{
    if k <= 0 {
        0
    } else {
        inside_counts(entries, names, id, k - 1) + entry_count(inside(entries, names[k - 1]), id)
    }
}

proof fn lemma_leaf_counts_prefix(a: Seq<NodeView>, b: Seq<NodeView>, id: LeafId, k: int)
    requires
        k <= a.len(),
        k <= b.len(),
        forall|i: int| 0 <= i < k ==> a[i] == b[i],
    ensures
        leaf_counts(a, id, k) == leaf_counts(b, id, k),
    decreases k,
{
    if k > 0 {
        lemma_leaf_counts_prefix(a, b, id, k - 1);
    }
}

/// Counting leaves below one node more.
pub proof fn lemma_leaf_counts_push(a: Seq<NodeView>, n: NodeView, id: LeafId)
    ensures
        leaf_counts(a.push(n), id, a.len() as int + 1) == leaf_counts(a, id, a.len() as int) + leaf_count(
            n,
            id,
        ),
{
    lemma_leaf_counts_prefix(a, a.push(n), id, a.len() as int);
}

proof fn lemma_collapsed_keeps_leaves(label: Seq<char>, children: Seq<NodeView>, id: LeafId)
    ensures
        leaf_count(collapsed(label, children), id) == leaf_counts(
            children,
            id,
            children.len() as int,
        ),
    decreases children,
{
    if children.len() == 1 {
        match children[0] {
            NodeView::Group { label: inner, children: kids } => {
                assert(decreases_to!(children => children[0]));
                assert(decreases_to!(children[0] => children[0]->children));
                lemma_collapsed_keeps_leaves(label + "."@ + inner, kids, id);
                assert(leaf_counts(children, id, 0) == 0);
                assert(leaf_counts(children, id, 1) == leaf_count(children[0], id));
            },
            NodeView::Leaf { .. } => {},
        }
    }
}

proof fn lemma_class_leaves_count(entries: Seq<EntryView>, id: LeafId)
    ensures
        leaf_counts(class_leaves(entries), id, class_leaves(entries).len() as int)
            == single_count(entries, id),
    decreases entries.len(),
{
    if entries.len() > 0 {
        lemma_class_leaves_count(entries.drop_last(), id);
        let last = entries.last();
        if last.parts.len() == 1 {
            lemma_leaf_counts_push(
                class_leaves(entries.drop_last()),
                NodeView::Leaf { label: last.parts[0], leaf_id: last.id },
                id,
            );
        }
    }
}

/// Counting leaves below two lists of nodes.
pub proof fn lemma_leaf_counts_append(a: Seq<NodeView>, b: Seq<NodeView>, id: LeafId, k: int)
    requires
        0 <= k <= b.len(),
    ensures
        leaf_counts(a + b, id, a.len() + k) == leaf_counts(a, id, a.len() as int) + leaf_counts(
            b,
            id,
            k,
        ),
    decreases k,
{
    if k == 0 {
        lemma_leaf_counts_prefix(a, a + b, id, a.len() as int);
    } else {
        lemma_leaf_counts_append(a, b, id, k - 1);
        assert((a + b)[a.len() + k - 1] == b[k - 1]);
    }
}

/// Adding one entry adds to its own package only.
proof fn lemma_inside_counts_step(
    entries: Seq<EntryView>,
    names: Seq<Seq<char>>,
    id: LeafId,
    k: int,
)
    requires
        entries.len() > 0,
        0 <= k <= names.len(),
        ascending::<String>(names),
    ensures
        ({
            let last = entries.last();
            let hit = last.parts.len() >= 2 && last.id == id && names.take(k).contains(last.parts[0]);
            inside_counts(entries, names, id, k) == inside_counts(entries.drop_last(), names, id, k)
                + if hit {
                1int
            } else {
                0int
            }
        }),
    decreases k,
{
    let last = entries.last();
    let rest = entries.drop_last();
    if k > 0 {
        lemma_inside_counts_step(entries, names, id, k - 1);
        let name = names[k - 1];
        let a = names.take(k - 1);
        let b = names.take(k);
        assert(b =~= a.push(name));
        if last.parts.len() >= 2 {
            let x = last.parts[0];
            if x == name {
                assert(b[k - 1] == x);
                if a.contains(x) {
                    let q = choose|q: int| 0 <= q < a.len() && a[q] == x;
                    assert(crate::order::text_before(names[q], names[k - 1]));
                    <String as crate::order::Rank>::irreflexive(x);
                }
                let sub = inside(entries, name);
                assert(sub.drop_last() =~= inside(rest, name));
                assert(sub.last().parts.len() > 0);
            } else {
                if b.contains(x) {
                    let q = choose|q: int| 0 <= q < b.len() && b[q] == x;
                    assert(a[q] == x);
                }
                if a.contains(x) {
                    let q = choose|q: int| 0 <= q < a.len() && a[q] == x;
                    assert(b[q] == x);
                }
            }
        }
    }
}

pub(crate) proof fn lemma_heads_last(entries: Seq<EntryView>)
    requires
        entries.len() > 0,
    ensures
        entries.last().parts.len() >= 2 ==> heads(entries).contains(entries.last().parts[0]),
        forall|x: Seq<char>| #[trigger]
            heads(entries.drop_last()).contains(x) ==> heads(entries).contains(x),
{
    let rest = entries.drop_last();
    let h = heads(entries);
    if entries.last().parts.len() >= 2 {
        assert(h[heads(rest).len() as int] == entries.last().parts[0]);
    }
    assert forall|x: Seq<char>| #[trigger] heads(rest).contains(x) implies h.contains(x) by {
        let q = choose|q: int| 0 <= q < heads(rest).len() && heads(rest)[q] == x;
        assert(h[q] == x);
    }
}

/// The classes are those at this level and those in the packages.
proof fn lemma_counts_split(entries: Seq<EntryView>, names: Seq<Seq<char>>, id: LeafId)
    requires
        ascending::<String>(names),
        forall|x: Seq<char>| #[trigger] heads(entries).contains(x) ==> names.contains(x),
    ensures
        entry_count(entries, id) == single_count(entries, id) + inside_counts(
            entries,
            names,
            id,
            names.len() as int,
        ),
    decreases entries.len(),
{
    let n = names.len() as int;
    assert(names.take(n) =~= names);
    if entries.len() == 0 {
        lemma_no_entries(entries, names, id, n);
    } else {
        lemma_heads_last(entries);
        lemma_counts_split(entries.drop_last(), names, id);
        lemma_inside_counts_step(entries, names, id, n);
    }
}

proof fn lemma_no_entries(entries: Seq<EntryView>, names: Seq<Seq<char>>, id: LeafId, k: int)
    requires
        entries.len() == 0,
        0 <= k <= names.len(),
    ensures
        inside_counts(entries, names, id, k) == 0,
    decreases k,
{
    if k > 0 {
        lemma_no_entries(entries, names, id, k - 1);
    }
}

proof fn lemma_groups_count(entries: Seq<EntryView>, names: Seq<Seq<char>>, id: LeafId, k: int)
    requires
        0 <= k <= names.len(),
        is_sorted_set::<String>(names, heads(entries)),
    ensures
        leaf_counts(
            package_groups(entries, names, k),
            id,
            package_groups(entries, names, k).len() as int,
        ) == inside_counts(entries, names, id, k),
    decreases weight(entries), 0int, k,
{
    if k > 0 {
        lemma_groups_count(entries, names, id, k - 1);
        let name = names[k - 1];
        assert(names.contains(name));
        lemma_inside_is_lighter(entries, name);
        let sub = inside(entries, name);
        law_no_class_is_lost(sub, id);
        let nodes = package_nodes(sub);
        if nodes.len() > 0 {
            lemma_collapsed_keeps_leaves(name, nodes, id);
            lemma_leaf_counts_push(
                package_groups(entries, names, k - 1),
                collapsed(name, nodes),
                id,
            );
        }
    }
}

/// Every named class shows in the package tree exactly as often as it was
/// inserted: arranging by package loses and repeats none.
pub proof fn law_no_class_is_lost(entries: Seq<EntryView>, id: LeafId)
    ensures
        leaf_counts(package_nodes(entries), id, package_nodes(entries).len() as int)
            == entry_count(entries, id),
    decreases weight(entries), 1int, 0int,
{
    let names = package_names(entries);
    lemma_sorted_list_exists::<String>(heads(entries));
    let n = names.len() as int;
    lemma_groups_count(entries, names, id, n);
    lemma_class_leaves_count(entries, id);
    assert forall|x: Seq<char>| #[trigger] heads(entries).contains(x) implies names.contains(x) by {
    }
    lemma_counts_split(entries, names, id);
    lemma_leaf_counts_append(
        package_groups(entries, names, n),
        class_leaves(entries),
        id,
        class_leaves(entries).len() as int,
    );
}

} // verus!

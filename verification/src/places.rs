//! Where each class stands in the package tree.

use crate::leaf::LeafId;
use crate::order::{ascending, is_sorted_set, lemma_sorted_list_exists};
use crate::packages::{
    class_leaves, collapsed, heads, inside, lemma_heads_last, lemma_inside_is_lighter, package_groups,
    package_names, package_nodes, weight, EntryView,
};
use crate::tree::NodeView;
use vstd::prelude::*;

verus! {

// ---- places ----------------------------------------------------------------

/// A leaf and where it stands: the labels of the groups above it, joined by
/// dots, if there are any.
#[verifier::ext_equal]
pub ghost struct PlaceView {
    pub package: Option<Seq<char>>,
    pub label: Seq<char>,
    pub id: LeafId,
}

/// `name` below the package `above`.
pub open spec fn dotted(above: Option<Seq<char>>, name: Seq<char>) -> Seq<char> {
    match above {
        Some(package) => package + "."@ + name,
        None => name,
    }
}

/// The names in `parts`, joined by dots, below the package `above`.
pub open spec fn package_under(above: Option<Seq<char>>, parts: Seq<Seq<char>>) -> Option<Seq<char>>
    decreases parts.len(),
{
    if parts.len() == 0 {
        above
    } else {
        package_under(Some(dotted(above, parts[0])), parts.skip(1))
    }
}

/// The place that the name of a class asks for: its last part is the label, the
/// parts before it are the package.
pub open spec fn place_of(above: Option<Seq<char>>, entry: EntryView) -> PlaceView {
    PlaceView {
        package: package_under(above, entry.parts.drop_last()),
        label: entry.parts.last(),
        id: entry.id,
    }
}

/// How many classes with a name ask for `place`.
pub open spec fn asked_count(
    entries: Seq<EntryView>,
    above: Option<Seq<char>>,
    place: PlaceView,
) -> int
    decreases entries.len(),
{
    if entries.len() == 0 {
        0
    } else {
        asked_count(entries.drop_last(), above, place) + if entries.last().parts.len() > 0
            && place_of(above, entries.last()) == place {
            1int
        } else {
            0int
        }
    }
}

/// How many leaves at or below a node stand at `place`, where the node lies in
/// the package `above`.
pub open spec fn placed_count(n: NodeView, above: Option<Seq<char>>, place: PlaceView) -> int
    decreases n, 0int,
{
    match n {
        NodeView::Leaf { label, leaf_id } => if (PlaceView { package: above, label, id: leaf_id })
            == place {
            1int
        } else {
            0int
        },
        NodeView::Group { label, children } => placed_counts(
            children,
            Some(dotted(above, label)),
            place,
            children.len() as int,
        ),
    }
}

/// How many leaves at or below the first `k` nodes stand at `place`.
pub open spec fn placed_counts(
    nodes: Seq<NodeView>,
    above: Option<Seq<char>>,
    place: PlaceView,
    k: int,
) -> int
    decreases nodes, k,
    when k <= nodes.len()
{
    if k <= 0 {
        0
    } else {
        placed_counts(nodes, above, place, k - 1) + placed_count(nodes[k - 1], above, place)
    }
}

// ---- proofs about places ---------------------------------------------------

/// How many of the classes directly at this level ask for `place`.
spec fn single_asked(entries: Seq<EntryView>, above: Option<Seq<char>>, place: PlaceView) -> int
    decreases entries.len(),
{
    if entries.len() == 0 {
        0
    } else {
        single_asked(entries.drop_last(), above, place) + if entries.last().parts.len() == 1
            && place_of(above, entries.last()) == place {
            1int
        } else {
            0int
        }
    }
}

/// How many classes in the first `k` packages ask for `place`.
spec fn inside_asked(
    entries: Seq<EntryView>,
    names: Seq<Seq<char>>,
    above: Option<Seq<char>>,
    place: PlaceView,
    k: int,
) -> int
    decreases k,
{
    if k <= 0 {
        0
    } else {
        inside_asked(entries, names, above, place, k - 1) + asked_count(
            inside(entries, names[k - 1]),
            Some(dotted(above, names[k - 1])),
            place,
        )
    }
}

/// Going into a package moves its name from the class to the place above it.
proof fn lemma_place_inside(above: Option<Seq<char>>, entry: EntryView)
    requires
        entry.parts.len() >= 2,
    ensures
        place_of(
            Some(dotted(above, entry.parts[0])),
            (EntryView { parts: entry.parts.skip(1), id: entry.id }),
        ) == place_of(above, entry),
{
    let parts = entry.parts;
    assert(parts.drop_last().skip(1) =~= parts.skip(1).drop_last());
}

proof fn lemma_placed_prefix(
    a: Seq<NodeView>,
    b: Seq<NodeView>,
    above: Option<Seq<char>>,
    place: PlaceView,
    k: int,
)
    requires
        k <= a.len(),
        k <= b.len(),
        forall|i: int| 0 <= i < k ==> a[i] == b[i],
    ensures
        placed_counts(a, above, place, k) == placed_counts(b, above, place, k),
    decreases k,
{
    if k > 0 {
        lemma_placed_prefix(a, b, above, place, k - 1);
    }
}

proof fn lemma_placed_push(
    a: Seq<NodeView>,
    n: NodeView,
    above: Option<Seq<char>>,
    place: PlaceView,
)
    ensures
        placed_counts(a.push(n), above, place, a.len() as int + 1) == placed_counts(
            a,
            above,
            place,
            a.len() as int,
        ) + placed_count(n, above, place),
{
    lemma_placed_prefix(a, a.push(n), above, place, a.len() as int);
}

proof fn lemma_placed_append(
    a: Seq<NodeView>,
    b: Seq<NodeView>,
    above: Option<Seq<char>>,
    place: PlaceView,
    k: int,
)
    requires
        0 <= k <= b.len(),
    ensures
        placed_counts(a + b, above, place, a.len() + k) == placed_counts(
            a,
            above,
            place,
            a.len() as int,
        ) + placed_counts(b, above, place, k),
    decreases k,
{
    if k == 0 {
        lemma_placed_prefix(a, a + b, above, place, a.len() as int);
    } else {
        lemma_placed_append(a, b, above, place, k - 1);
        assert((a + b)[a.len() + k - 1] == b[k - 1]);
    }
}

/// Sharing a row moves no leaf: the joined label reads as the two labels did.
proof fn lemma_collapsed_keeps_places(
    label: Seq<char>,
    children: Seq<NodeView>,
    above: Option<Seq<char>>,
    place: PlaceView,
)
    ensures
        placed_count(collapsed(label, children), above, place) == placed_counts(
            children,
            Some(dotted(above, label)),
            place,
            children.len() as int,
        ),
    decreases children,
{
    if children.len() == 1 {
        match children[0] {
            NodeView::Group { label: inner, children: kids } => {
                assert(decreases_to!(children => children[0]));
                assert(decreases_to!(children[0] => children[0]->children));
                let joined = label + "."@ + inner;
                lemma_collapsed_keeps_places(joined, kids, above, place);
                let outer = Some(dotted(above, label));
                assert(dotted(above, joined) =~= dotted(outer, inner));
                assert(placed_counts(children, outer, place, 0) == 0);
                assert(placed_counts(children, outer, place, 1) == placed_count(
                    children[0],
                    outer,
                    place,
                ));
            },
            NodeView::Leaf { .. } => {},
        }
    }
}

proof fn lemma_class_leaves_placed(
    entries: Seq<EntryView>,
    above: Option<Seq<char>>,
    place: PlaceView,
)
    ensures
        placed_counts(
            class_leaves(entries),
            above,
            place,
            class_leaves(entries).len() as int,
        ) == single_asked(entries, above, place),
    decreases entries.len(),
{
    if entries.len() > 0 {
        lemma_class_leaves_placed(entries.drop_last(), above, place);
        let last = entries.last();
        if last.parts.len() == 1 {
            assert(last.parts.drop_last().len() == 0);
            lemma_placed_push(
                class_leaves(entries.drop_last()),
                NodeView::Leaf { label: last.parts[0], leaf_id: last.id },
                above,
                place,
            );
        }
    }
}

/// Adding one entry adds to its own package only.
proof fn lemma_inside_asked_step(
    entries: Seq<EntryView>,
    names: Seq<Seq<char>>,
    above: Option<Seq<char>>,
    place: PlaceView,
    k: int,
)
    requires
        entries.len() > 0,
        0 <= k <= names.len(),
        ascending::<String>(names),
    ensures
        ({
            let last = entries.last();
            let hit = last.parts.len() >= 2 && place_of(above, last) == place && names.take(
                k,
            ).contains(last.parts[0]);
            inside_asked(entries, names, above, place, k) == inside_asked(
                entries.drop_last(),
                names,
                above,
                place,
                k,
            ) + if hit {
                1int
            } else {
                0int
            }
        }),
    decreases k,
{
    let last = entries.last();
    let rest = entries.drop_last();
    if k > 0 {
        lemma_inside_asked_step(entries, names, above, place, k - 1);
        let name = names[k - 1];
        let a = names.take(k - 1);
        let b = names.take(k);
        assert(b =~= a.push(name));
        if last.parts.len() >= 2 {
            let x = last.parts[0];
            if x == name {
                assert(b[k - 1] == x);
                if a.contains(x) {
                    let q = choose|q: int| 0 <= q < a.len() && a[q] == x;
                    assert(crate::order::text_before(names[q], names[k - 1]));
                    <String as crate::order::Rank>::irreflexive(x);
                }
                let sub = inside(entries, name);
                assert(sub.drop_last() =~= inside(rest, name));
                assert(sub.last().parts.len() > 0);
                lemma_place_inside(above, last);
            } else {
                if b.contains(x) {
                    let q = choose|q: int| 0 <= q < b.len() && b[q] == x;
                    assert(a[q] == x);
                }
                if a.contains(x) {
                    let q = choose|q: int| 0 <= q < a.len() && a[q] == x;
                    assert(b[q] == x);
                }
            }
        }
    }
}

proof fn lemma_nothing_asked(
    entries: Seq<EntryView>,
    names: Seq<Seq<char>>,
    above: Option<Seq<char>>,
    place: PlaceView,
    k: int,
)
    requires
        entries.len() == 0,
        0 <= k <= names.len(),
    ensures
        inside_asked(entries, names, above, place, k) == 0,
    decreases k,
{
    if k > 0 {
        lemma_nothing_asked(entries, names, above, place, k - 1);
    }
}

/// The classes are those at this level and those in the packages.
proof fn lemma_asked_split(
    entries: Seq<EntryView>,
    names: Seq<Seq<char>>,
    above: Option<Seq<char>>,
    place: PlaceView,
)
    requires
        ascending::<String>(names),
        forall|x: Seq<char>| #[trigger] heads(entries).contains(x) ==> names.contains(x),
    ensures
        asked_count(entries, above, place) == single_asked(entries, above, place) + inside_asked(
            entries,
            names,
            above,
            place,
            names.len() as int,
        ),
    decreases entries.len(),
{
    let n = names.len() as int;
    assert(names.take(n) =~= names);
    if entries.len() == 0 {
        lemma_nothing_asked(entries, names, above, place, n);
    } else {
        lemma_heads_last(entries);
        lemma_asked_split(entries.drop_last(), names, above, place);
        lemma_inside_asked_step(entries, names, above, place, n);
    }
}

proof fn lemma_groups_placed(
    entries: Seq<EntryView>,
    names: Seq<Seq<char>>,
    above: Option<Seq<char>>,
    place: PlaceView,
    k: int,
)
    requires
        0 <= k <= names.len(),
        is_sorted_set::<String>(names, heads(entries)),
    ensures
        placed_counts(
            package_groups(entries, names, k),
            above,
            place,
            package_groups(entries, names, k).len() as int,
        ) == inside_asked(entries, names, above, place, k),
    decreases weight(entries), 0int, k,
{
    if k > 0 {
        lemma_groups_placed(entries, names, above, place, k - 1);
        let name = names[k - 1];
        assert(names.contains(name));
        lemma_inside_is_lighter(entries, name);
        let sub = inside(entries, name);
        lemma_nodes_placed(sub, Some(dotted(above, name)), place);
        let nodes = package_nodes(sub);
        if nodes.len() > 0 {
            lemma_collapsed_keeps_places(name, nodes, above, place);
            lemma_placed_push(
                package_groups(entries, names, k - 1),
                collapsed(name, nodes),
                above,
                place,
            );
        }
    }
}

proof fn lemma_nodes_placed(entries: Seq<EntryView>, above: Option<Seq<char>>, place: PlaceView)
    ensures
        placed_counts(
            package_nodes(entries),
            above,
            place,
            package_nodes(entries).len() as int,
        ) == asked_count(entries, above, place),
    decreases weight(entries), 1int, 0int,
{
    let names = package_names(entries);
    lemma_sorted_list_exists::<String>(heads(entries));
    let n = names.len() as int;
    lemma_groups_placed(entries, names, above, place, n);
    lemma_class_leaves_placed(entries, above, place);
    assert forall|x: Seq<char>| #[trigger] heads(entries).contains(x) implies names.contains(x) by {
    }
    lemma_asked_split(entries, names, above, place);
    lemma_placed_append(
        package_groups(entries, names, n),
        class_leaves(entries),
        above,
        place,
        class_leaves(entries).len() as int,
    );
}

/// Every class with a name stands where its name says, as often as it was
/// inserted, and nothing else stands in the tree: its leaf is labelled with the
/// last part of the name, and the labels of the groups above it, joined by dots,
/// are the parts before.
pub proof fn law_classes_stand_in_their_packages(entries: Seq<EntryView>, place: PlaceView)
    ensures
        placed_counts(package_nodes(entries), None, place, package_nodes(entries).len() as int)
            == asked_count(entries, None, place),
{
    lemma_nodes_placed(entries, None, place);
}

// ---- shape -----------------------------------------------------------------

/// No group at or below the node is empty, and none has a group as its only
/// child.
pub open spec fn tidy(n: NodeView) -> bool
    decreases n, 0int,
{
    match n {
        NodeView::Leaf { .. } => true,
        NodeView::Group { children, .. } => {
            &&& children.len() > 0
            &&& !(children.len() == 1 && children[0] is Group)
            &&& all_tidy(children, children.len() as int)
        },
    }
}

/// The first `k` nodes are tidy.
pub open spec fn all_tidy(nodes: Seq<NodeView>, k: int) -> bool
    decreases nodes, k,
    when k <= nodes.len()
{
    k <= 0 || (all_tidy(nodes, k - 1) && tidy(nodes[k - 1]))
}

proof fn lemma_tidy_prefix(a: Seq<NodeView>, b: Seq<NodeView>, k: int)
    requires
        k <= a.len(),
        k <= b.len(),
        forall|i: int| 0 <= i < k ==> a[i] == b[i],
    ensures
        all_tidy(a, k) == all_tidy(b, k),
    decreases k,
{
    if k > 0 {
        lemma_tidy_prefix(a, b, k - 1);
    }
}

proof fn lemma_tidy_append(a: Seq<NodeView>, b: Seq<NodeView>, k: int)
    requires
        0 <= k <= b.len(),
        all_tidy(a, a.len() as int),
        all_tidy(b, k),
    ensures
        all_tidy(a + b, a.len() + k),
    decreases k,
{
    if k == 0 {
        lemma_tidy_prefix(a, a + b, a.len() as int);
    } else {
        assert(all_tidy(b, k - 1) && tidy(b[k - 1]));
        lemma_tidy_append(a, b, k - 1);
        assert((a + b)[a.len() + k - 1] == b[k - 1]);
    }
}

proof fn lemma_collapsed_is_tidy(label: Seq<char>, children: Seq<NodeView>)
    requires
        children.len() > 0,
        all_tidy(children, children.len() as int),
    ensures
        tidy(collapsed(label, children)),
    decreases children,
{
    if children.len() == 1 {
        match children[0] {
            NodeView::Group { label: inner, children: kids } => {
                assert(decreases_to!(children => children[0]));
                assert(decreases_to!(children[0] => children[0]->children));
                assert(all_tidy(children, 0) && tidy(children[0]));
                lemma_collapsed_is_tidy(label + "."@ + inner, kids);
            },
            NodeView::Leaf { .. } => {},
        }
    }
}

proof fn lemma_class_leaves_are_tidy(entries: Seq<EntryView>)
    ensures
        all_tidy(class_leaves(entries), class_leaves(entries).len() as int),
    decreases entries.len(),
{
    if entries.len() > 0 {
        let rest = class_leaves(entries.drop_last());
        lemma_class_leaves_are_tidy(entries.drop_last());
        let leaves = class_leaves(entries);
        lemma_tidy_prefix(rest, leaves, rest.len() as int);
        if leaves.len() > rest.len() {
            assert(tidy(leaves[rest.len() as int]));
        }
    }
}

proof fn lemma_groups_are_tidy(entries: Seq<EntryView>, names: Seq<Seq<char>>, k: int)
    requires
        k <= names.len(),
    ensures
        all_tidy(
            package_groups(entries, names, k),
            package_groups(entries, names, k).len() as int,
        ),
    decreases weight(entries), 0int, k,
{
    if k > 0 {
        lemma_groups_are_tidy(entries, names, k - 1);
        let before = package_groups(entries, names, k - 1);
        let sub = inside(entries, names[k - 1]);
        if weight(sub) < weight(entries) && package_nodes(sub).len() > 0 {
            law_package_tree_is_tidy(sub);
            lemma_collapsed_is_tidy(names[k - 1], package_nodes(sub));
            lemma_tidy_prefix(before, package_groups(entries, names, k), before.len() as int);
        }
    }
}

/// No group of the package tree is empty, and none has a group as its only
/// child: such a pair shares one row.
pub proof fn law_package_tree_is_tidy(entries: Seq<EntryView>)
    ensures
        all_tidy(package_nodes(entries), package_nodes(entries).len() as int),
    decreases weight(entries), 1int, 0int,
{
    let names = package_names(entries);
    let groups = package_groups(entries, names, names.len() as int);
    lemma_groups_are_tidy(entries, names, names.len() as int);
    lemma_class_leaves_are_tidy(entries);
    lemma_tidy_append(groups, class_leaves(entries), class_leaves(entries).len() as int);
}

} // verus!

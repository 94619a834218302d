//! Class names, and the order of the package tree.

use crate::laws::text::begins;
use crate::order::{ascending, lemma_sorted_list_exists, text_before};
use crate::packages::{
    class_leaves, class_parts, class_path, collapsed, heads, inside, package_groups, package_names,
    package_nodes, pieces_from, separator_from, weight, EntryView,
};
use crate::tree::NodeView;
use vstd::prelude::*;

verus! {

// ---- names -----------------------------------------------------------------

/// The pieces of a text, one after the other, with `sep` between them.
pub open spec fn joined(pieces: Seq<Seq<char>>, sep: char) -> Seq<char>
    decreases pieces.len(),
{
    if pieces.len() == 0 {
        Seq::empty()
    } else if pieces.len() == 1 {
        pieces[0]
    } else {
        pieces[0].push(sep) + joined(pieces.skip(1), sep)
    }
}

proof fn lemma_separator(t: Seq<char>, sep: char, i: int)
    requires
        0 <= i <= t.len(),
    ensures
        i <= separator_from(t, sep, i) <= t.len(),
        separator_from(t, sep, i) < t.len() ==> t[separator_from(t, sep, i)] == sep,
        forall|k: int| i <= k < separator_from(t, sep, i) ==> #[trigger] t[k] != sep,
    decreases t.len() - i,
{
    if i < t.len() && t[i] != sep {
        lemma_separator(t, sep, i + 1);
    }
}

proof fn lemma_pieces(t: Seq<char>, sep: char, i: int)
    requires
        0 <= i <= t.len(),
    ensures
        pieces_from(t, sep, i).len() > 0,
        joined(pieces_from(t, sep, i), sep) == t.subrange(i, t.len() as int),
        forall|k: int|
            0 <= k < pieces_from(t, sep, i).len() ==> !(#[trigger] pieces_from(
                t,
                sep,
                i,
            )[k]).contains(sep),
    decreases t.len() - i,
{
    lemma_separator(t, sep, i);
    let e = separator_from(t, sep, i);
    let all = pieces_from(t, sep, i);
    let first = t.subrange(i, e);
    assert(!first.contains(sep)) by {
        if first.contains(sep) {
            let k = choose|k: int| 0 <= k < first.len() && first[k] == sep;
            assert(t[i + k] == sep);
        }
    }
    if e < t.len() {
        lemma_pieces(t, sep, e + 1);
        let rest = pieces_from(t, sep, e + 1);
        assert(all =~= seq![first] + rest);
        assert(all.skip(1) =~= rest);
        assert(first.push(sep) + t.subrange(e + 1, t.len() as int) =~= t.subrange(
            i,
            t.len() as int,
        ));
        assert forall|k: int| 0 <= k < all.len() implies !(#[trigger] all[k]).contains(sep) by {
            if k > 0 {
                assert(all[k] == rest[k - 1]);
            }
        }
    } else {
        assert(all =~= seq![t.subrange(i, t.len() as int)]);
    }
}

/// The path of a class stands between a leading `L` and a trailing `;`. A name
/// without the `;` is its own path.
pub proof fn law_class_path(x: Seq<char>, jni: Seq<char>)
    ensures
        class_path(seq!['L'] + x + seq![';']) == x,
        jni.len() == 0 || jni.last() != ';' ==> class_path(jni) == jni,
        x.len() > 0 && x[0] != 'L' ==> class_path(x + seq![';']) == x,
{
    let a = seq!['L'] + x + seq![';'];
    assert(a.last() == ';');
    assert(a[0] == 'L');
    assert(a.subrange(1, a.len() - 1) =~= x);
    let b = x + seq![';'];
    assert(b.subrange(0, b.len() - 1) =~= x);
}

/// A class path is split at its slashes and nowhere else.
pub proof fn law_class_parts(jni: Seq<char>)
    ensures
        class_parts(jni).len() > 0,
        joined(class_parts(jni), '/') == class_path(jni),
        forall|k: int|
            0 <= k < class_parts(jni).len() ==> !(#[trigger] class_parts(jni)[k]).contains('/'),
{
    let t = class_path(jni);
    lemma_pieces(t, '/', 0);
    assert(t.subrange(0, t.len() as int) =~= t);
}

// ---- order -----------------------------------------------------------------

/// A group is labelled with a package, or with one and more of its path after a dot.
pub open spec fn labelled(n: NodeView, package: Seq<char>) -> bool {
    n is Group && (n->Group_label == package || begins(n->Group_label, package + "."@))
}

/// Packages stand before classes: the groups of `packages`, in ascending order, then
/// leaves in ascending order of their numbers.
pub open spec fn in_place(nodes: Seq<NodeView>, packages: Seq<Seq<char>>) -> bool {
    &&& packages.len() <= nodes.len()
    &&& forall|i: int|
        0 <= i < packages.len() ==> labelled(#[trigger] nodes[i], packages[i])
    &&& forall|i: int, j: int|
        0 <= i < j < packages.len() ==> text_before(#[trigger] packages[i], #[trigger] packages[j])
    &&& forall|i: int| packages.len() <= i < nodes.len() ==> (#[trigger] nodes[i]) is Leaf
    &&& forall|i: int, j: int|
        packages.len() <= i < j < nodes.len() ==> (#[trigger] nodes[i])->leaf_id.0 < (
        #[trigger] nodes[j])->leaf_id.0
}

/// Nodes are in place, and so are the nodes below them.
pub open spec fn arranged(nodes: Seq<NodeView>) -> bool
    decreases nodes, nodes.len() + 1,
{
    (exists|packages: Seq<Seq<char>>| #[trigger] in_place(nodes, packages)) && arranged_below(
        nodes,
        nodes.len() as int,
    )
}

/// What is below the first `k` nodes is arranged.
pub open spec fn arranged_below(nodes: Seq<NodeView>, k: int) -> bool
    decreases nodes, k,
    when k <= nodes.len()
{
    k <= 0 || (arranged_below(nodes, k - 1) && (match nodes[k - 1] {
        NodeView::Group { children, .. } => arranged(children),
        NodeView::Leaf { .. } => true,
    }))
}

/// The numbers of entries ascend.
pub open spec fn numbered(entries: Seq<EntryView>) -> bool {
    forall|i: int, j: int|
        0 <= i < j < entries.len() ==> (#[trigger] entries[i]).id.0 < (#[trigger] entries[j]).id.0
}

proof fn lemma_arranged_at(nodes: Seq<NodeView>, k: int, i: int)
    requires
        0 <= i < k <= nodes.len(),
        arranged_below(nodes, k),
        nodes[i] is Group,
    ensures
        arranged(nodes[i]->children),
    decreases k,
{
    if i < k - 1 {
        lemma_arranged_at(nodes, k - 1, i);
    }
}

proof fn lemma_arranged_all(nodes: Seq<NodeView>, k: int)
    requires
        0 <= k <= nodes.len(),
        forall|i: int| 0 <= i < k && (#[trigger] nodes[i]) is Group ==> arranged(nodes[i]->children),
    ensures
        arranged_below(nodes, k),
    decreases k,
{
    if k > 0 {
        lemma_arranged_all(nodes, k - 1);
        match nodes[k - 1] {
            NodeView::Group { children, .. } => {
                assert(nodes[k - 1] is Group);
            },
            NodeView::Leaf { .. } => {},
        }
    }
}

/// Sharing a row keeps the package in front of the label, and what is below.
proof fn lemma_collapsed(label: Seq<char>, package: Seq<char>, children: Seq<NodeView>)
    requires
        arranged(children),
        label == package || begins(label, package + "."@),
    ensures
        labelled(collapsed(label, children), package),
        arranged(collapsed(label, children)->children),
    decreases children,
{
    if children.len() == 1 {
        match children[0] {
            NodeView::Group { label: inner, children: kids } => {
                let longer = label + "."@ + inner;
                lemma_arranged_at(children, 1, 0);
                if label == package {
                    assert(begins(longer, package + "."@)) by {
                        assert forall|i: int| 0 <= i < (package + "."@).len() implies
                            #[trigger] longer[i] == (package + "."@)[i] by {}
                    }
                } else {
                    assert forall|i: int| 0 <= i < (package + "."@).len() implies
                        #[trigger] longer[i] == (package + "."@)[i] by {
                        assert(longer[i] == label[i]);
                    }
                }
                lemma_collapsed(longer, package, kids);
            },
            NodeView::Leaf { .. } => {},
        }
    }
}

proof fn lemma_inside(entries: Seq<EntryView>, name: Seq<char>)
    requires
        numbered(entries),
    ensures
        numbered(inside(entries, name)),
        forall|i: int|
            0 <= i < inside(entries, name).len() ==> exists|k: int|
                0 <= k < entries.len() && (#[trigger] inside(entries, name)[i]).id == (
                #[trigger] entries[k]).id,
    decreases entries.len(),
{
    if entries.len() > 0 {
        let rest = entries.drop_last();
        assert forall|i: int, j: int| 0 <= i < j < rest.len() implies (#[trigger] rest[i]).id.0 < (
        #[trigger] rest[j]).id.0 by {
            assert(entries[i].id.0 < entries[j].id.0);
        }
        lemma_inside(rest, name);
        let before = inside(rest, name);
        let now = inside(entries, name);
        assert forall|i: int| 0 <= i < now.len() implies exists|k: int|
            0 <= k < entries.len() && (#[trigger] now[i]).id == (#[trigger] entries[k]).id by {
            if i < before.len() {
                assert(now[i] == before[i]);
                let k = choose|k: int| 0 <= k < rest.len() && before[i].id == (#[trigger] rest[k]).id;
                assert(rest[k] == entries[k]);
            } else {
                assert(now[i].id == entries[entries.len() - 1].id);
            }
        }
        assert forall|i: int, j: int| 0 <= i < j < now.len() implies (#[trigger] now[i]).id.0 < (
        #[trigger] now[j]).id.0 by {
            if j < before.len() {
                assert(before[i].id.0 < before[j].id.0);
            } else {
                assert(now[i] == before[i]);
                let k = choose|k: int| 0 <= k < rest.len() && before[i].id == (#[trigger] rest[k]).id;
                assert(entries[k].id.0 < entries[entries.len() - 1].id.0);
            }
        }
    }
}

proof fn lemma_leaves(entries: Seq<EntryView>)
    requires
        numbered(entries),
    ensures
        forall|i: int| 0 <= i < class_leaves(entries).len() ==> (#[trigger] class_leaves(
            entries,
        )[i]) is Leaf,
        forall|i: int|
            0 <= i < class_leaves(entries).len() ==> exists|k: int|
                0 <= k < entries.len() && (#[trigger] class_leaves(entries)[i])->leaf_id == (
                #[trigger] entries[k]).id,
        forall|i: int, j: int|
            0 <= i < j < class_leaves(entries).len() ==> (#[trigger] class_leaves(
                entries,
            )[i])->leaf_id.0 < (#[trigger] class_leaves(entries)[j])->leaf_id.0,
    decreases entries.len(),
{
    if entries.len() > 0 {
        let rest = entries.drop_last();
        assert forall|i: int, j: int| 0 <= i < j < rest.len() implies (#[trigger] rest[i]).id.0 < (
        #[trigger] rest[j]).id.0 by {
            assert(entries[i].id.0 < entries[j].id.0);
        }
        lemma_leaves(rest);
        let before = class_leaves(rest);
        let now = class_leaves(entries);
        assert forall|i: int| 0 <= i < now.len() implies exists|k: int|
            0 <= k < entries.len() && (#[trigger] now[i])->leaf_id == (#[trigger] entries[k]).id by {
            if i < before.len() {
                assert(now[i] == before[i]);
                let k = choose|k: int|
                    0 <= k < rest.len() && before[i]->leaf_id == (#[trigger] rest[k]).id;
                assert(rest[k] == entries[k]);
            } else {
                assert(now[i]->leaf_id == entries[entries.len() - 1].id);
            }
        }
        assert forall|i: int, j: int| 0 <= i < j < now.len() implies (#[trigger] now[i])->leaf_id.0 < (
        #[trigger] now[j])->leaf_id.0 by {
            assert(now[i] == before[i]);
            if j < before.len() {
                assert(now[j] == before[j]);
            } else {
                let k = choose|k: int|
                    0 <= k < rest.len() && before[i]->leaf_id == (#[trigger] rest[k]).id;
                assert(entries[k].id.0 < entries[entries.len() - 1].id.0);
            }
        }
    }
}

/// The packages among the first `k` that have a group.
spec fn shown_packages(entries: Seq<EntryView>, names: Seq<Seq<char>>, k: int) -> Seq<Seq<char>>
    decreases k,
{
    if k <= 0 {
        Seq::empty()
    } else {
        let before = shown_packages(entries, names, k - 1);
        let sub = inside(entries, names[k - 1]);
        if weight(sub) < weight(entries) && package_nodes(sub).len() > 0 {
            before.push(names[k - 1])
        } else {
            before
        }
    }
}

proof fn lemma_groups(entries: Seq<EntryView>, names: Seq<Seq<char>>, k: int)
    requires
        numbered(entries),
        0 <= k <= names.len(),
        ascending::<String>(names),
    ensures
        ({
            let groups = package_groups(entries, names, k);
            let shown = shown_packages(entries, names, k);
            &&& groups.len() == shown.len()
            &&& forall|i: int|
                0 <= i < shown.len() ==> labelled(#[trigger] groups[i], shown[i]) && arranged(
                    groups[i]->children,
                )
            &&& forall|i: int, j: int|
                0 <= i < j < shown.len() ==> text_before(#[trigger] shown[i], #[trigger] shown[j])
            &&& forall|i: int|
                0 <= i < shown.len() ==> exists|q: int|
                    0 <= q < k && #[trigger] names[q] == #[trigger] shown[i]
        }),
    decreases weight(entries), 0int, k,
{
    if k > 0 {
        lemma_groups(entries, names, k - 1);
        let groups = package_groups(entries, names, k);
        let shown = shown_packages(entries, names, k);
        let before = package_groups(entries, names, k - 1);
        let named = shown_packages(entries, names, k - 1);
        let sub = inside(entries, names[k - 1]);
        assert forall|i: int| 0 <= i < named.len() implies exists|q: int|
            0 <= q < k && #[trigger] names[q] == #[trigger] named[i] by {
            let q = choose|q: int| 0 <= q < k - 1 && #[trigger] names[q] == named[i];
            assert(names[q] == named[i]);
        }
        if weight(sub) < weight(entries) && package_nodes(sub).len() > 0 {
            lemma_inside(entries, names[k - 1]);
            lemma_arranged(sub);
            lemma_collapsed(names[k - 1], names[k - 1], package_nodes(sub));
            assert(groups =~= before.push(collapsed(names[k - 1], package_nodes(sub))));
            assert(shown =~= named.push(names[k - 1]));
            assert forall|i: int| 0 <= i < shown.len() implies labelled(
                #[trigger] groups[i],
                shown[i],
            ) && arranged(groups[i]->children) by {
                if i < named.len() {
                    assert(groups[i] == before[i]);
                    assert(shown[i] == named[i]);
                }
            }
            assert forall|i: int, j: int| 0 <= i < j < shown.len() implies text_before(
                #[trigger] shown[i],
                #[trigger] shown[j],
            ) by {
                if j < named.len() {
                    assert(text_before(named[i], named[j]));
                } else {
                    let q = choose|q: int| 0 <= q < k - 1 && #[trigger] names[q] == named[i];
                    assert(<String as crate::order::Rank>::before(names[q], names[k - 1]));
                }
            }
            assert forall|i: int| 0 <= i < shown.len() implies exists|q: int|
                0 <= q < k && #[trigger] names[q] == #[trigger] shown[i] by {
                if i < named.len() {
                    assert(shown[i] == named[i]);
                } else {
                    assert(names[k - 1] == shown[i]);
                }
            }
        }
    }
}

proof fn lemma_arranged(entries: Seq<EntryView>)
    requires
        numbered(entries),
    ensures
        arranged(package_nodes(entries)),
    decreases weight(entries), 1int, 0int,
{
    let names = package_names(entries);
    let nodes = package_nodes(entries);
    let k = names.len() as int;
    lemma_sorted_list_exists::<String>(heads(entries));
    lemma_groups(entries, names, k);
    lemma_leaves(entries);
    let groups = package_groups(entries, names, k);
    let leaves = class_leaves(entries);
    let shown = shown_packages(entries, names, k);
    assert(nodes =~= groups + leaves);
    assert forall|i: int| 0 <= i < shown.len() implies labelled(#[trigger] nodes[i], shown[i]) by {
        assert(nodes[i] == groups[i]);
    }
    assert forall|i: int| shown.len() <= i < nodes.len() implies (#[trigger] nodes[i]) is Leaf by {
        assert(nodes[i] == leaves[i - groups.len()]);
    }
    assert forall|i: int, j: int| shown.len() <= i < j < nodes.len() implies (
    #[trigger] nodes[i])->leaf_id.0 < (#[trigger] nodes[j])->leaf_id.0 by {
        assert(nodes[i] == leaves[i - groups.len()]);
        assert(nodes[j] == leaves[j - groups.len()]);
    }
    assert(in_place(nodes, shown));
    assert forall|i: int| 0 <= i < nodes.len() && (#[trigger] nodes[i]) is Group implies arranged(
        nodes[i]->children,
    ) by {
        if i < groups.len() {
            assert(nodes[i] == groups[i]);
            assert(labelled(groups[i], shown[i]));
        }
    }
    lemma_arranged_all(nodes, nodes.len() as int);
}

/// At every level of the package tree packages stand before classes, packages in
/// ascending order of their names, classes in the order in which they came.
pub proof fn law_package_tree_is_ordered(entries: Seq<EntryView>)
    requires
        numbered(entries),
    ensures
        arranged(package_nodes(entries)),
{
    lemma_arranged(entries);
}

} // verus!

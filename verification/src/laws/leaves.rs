//! The leaves of a bundle, and the tree that leads to them.

use crate::container::{
    arch_word, category_item, code_count, code_nodes, code_rows, enters, entries_upto, item_group,
    item_nodes, item_rows, joined_rows, native_nodes, native_rows, objc_of, swift_of, tagged,
    with_items, Category, Container, ItemView, LeafRowView, MetaMap, Section,
};
use crate::laws::classes::joined;
use crate::leaf::{LeafId, LeafKindView};
use crate::sections::{Architecture, SectionKind};
use crate::symbols::Symbol;
use crate::text::strings;
use crate::tree::NodeView;
use vstd::prelude::*;

verus! {

// ---- code sections ---------------------------------------------------------

/// `from` lists the code sections of a binary in order.
pub open spec fn lists_code(sections: Seq<Section>, n: int, from: Seq<int>) -> bool {
    &&& forall|i: int|
        0 <= i < from.len() ==> 0 <= #[trigger] from[i] < n && sections[from[i]].kind is Text
    &&& forall|i: int, j: int| 0 <= i < j < from.len() ==> #[trigger] from[i] < #[trigger] from[j]
    &&& forall|k: int| 0 <= k < n && (#[trigger] sections[k]).kind is Text ==> from.contains(k)
}

/// The leaf of a code section: it opens a listing, or bytes where the code is of an
/// unknown architecture.
pub open spec fn opens_section(
    row: LeafRowView,
    aid: Seq<u8>,
    arch: Architecture,
    origin: Seq<char>,
    s: Section,
) -> bool {
    &&& row.body.len() == 0
    &&& row.origin == origin
    &&& row.label == s.name@
    &&& arch is Other ==> row.kind == (LeafKindView::Hex { artifact: aid, section: s.name@ })
    &&& !(arch is Other) ==> row.kind == (LeafKindView::Listing {
        artifact: aid,
        section: s.name@,
    })
}

/// The code sections among the first `n`.
spec fn code_places(sections: Seq<Section>, n: int) -> Seq<int>
    decreases n,
{
    if n <= 0 {
        Seq::empty()
    } else if sections[n - 1].kind == SectionKind::Text {
        code_places(sections, n - 1).push(n - 1)
    } else {
        code_places(sections, n - 1)
    }
}

proof fn lemma_code(aid: Seq<u8>, c: Container, origin: Seq<char>, first: int, n: int)
    requires
        0 <= n <= c.sections@.len(),
    ensures
        ({
            let from = code_places(c.sections@, n);
            let rows = code_rows(aid, c, origin, n);
            let nodes = code_nodes(c.sections@, first, n);
            &&& lists_code(c.sections@, n, from)
            &&& from.len() == code_count(c.sections@, n)
            &&& rows.len() == from.len()
            &&& nodes.len() == from.len()
            &&& forall|i: int|
                0 <= i < from.len() ==> opens_section(
                    rows[i],
                    aid,
                    c.architecture,
                    origin,
                    c.sections@[#[trigger] from[i]],
                ) && nodes[i] == (NodeView::Leaf {
                    label: c.sections@[from[i]].name@,
                    leaf_id: LeafId((first + i) as usize),
                })
        }),
    decreases n,
{
    reveal_strlit("");
    if n > 0 {
        lemma_code(aid, c, origin, first, n - 1);
        let before = code_places(c.sections@, n - 1);
        let from = code_places(c.sections@, n);
        let rows = code_rows(aid, c, origin, n);
        let nodes = code_nodes(c.sections@, first, n);
        if c.sections@[n - 1].kind == SectionKind::Text {
            assert(from =~= before.push(n - 1));
            assert(from[before.len() as int] == n - 1);
            assert forall|i: int| 0 <= i < from.len() implies opens_section(
                rows[i],
                aid,
                c.architecture,
                origin,
                c.sections@[#[trigger] from[i]],
            ) && nodes[i] == (NodeView::Leaf {
                label: c.sections@[from[i]].name@,
                leaf_id: LeafId((first + i) as usize),
            }) by {
                if i < before.len() {
                    assert(from[i] == before[i]);
                }
            }
            assert forall|i: int| 0 <= i < from.len() implies 0 <= #[trigger] from[i] < n
                && c.sections@[from[i]].kind is Text by {
                if i < before.len() {
                    assert(from[i] == before[i]);
                }
            }
            assert forall|i: int, j: int| 0 <= i < j < from.len() implies #[trigger] from[i]
                < #[trigger] from[j] by {
                assert(from[i] == before[i]);
                if j < before.len() {
                    assert(from[j] == before[j]);
                }
            }
            assert forall|k: int| 0 <= k < n && (#[trigger] c.sections@[k]).kind is Text implies
                from.contains(k) by {
                if k < n - 1 {
                    let i = choose|i: int| 0 <= i < before.len() && before[i] == k;
                    assert(from[i] == k);
                }
            }
        } else {
            assert(from =~= before);
        }
    }
}

/// The leaves of a binary are its overview and one leaf per code section, in order;
/// the tree shows them in the same order, numbered from `first` on.
pub proof fn law_native_leaves(
    aid: Seq<u8>,
    c: Container,
    origin: Seq<char>,
    overview: Seq<char>,
    first: int,
) -> (from: Seq<int>)
    ensures
        lists_code(c.sections@, c.sections@.len() as int, from),
        native_rows(aid, c, origin, overview).len() == from.len() + 1,
        native_nodes(c, first).len() == from.len() + 1,
        ({
            let row = native_rows(aid, c, origin, overview)[0];
            &&& row.body.len() == 0
            &&& row.origin == origin
            &&& row.label == overview
            &&& row.kind == (LeafKindView::SectionMap { artifact: aid })
        }),
        native_nodes(c, first)[0] == (NodeView::Leaf {
            label: "Overview"@,
            leaf_id: LeafId(first as usize),
        }),
        forall|i: int|
            0 <= i < from.len() ==> opens_section(
                native_rows(aid, c, origin, overview)[i + 1],
                aid,
                c.architecture,
                origin,
                c.sections@[#[trigger] from[i]],
            ) && native_nodes(c, first)[i + 1] == (NodeView::Leaf {
                label: c.sections@[from[i]].name@,
                leaf_id: LeafId((first + 1 + i) as usize),
            }),
{
    let n = c.sections@.len() as int;
    lemma_code(aid, c, origin, first + 1, n);
    reveal_strlit("");
    let rows = native_rows(aid, c, origin, overview);
    let nodes = native_nodes(c, first);
    let from = code_places(c.sections@, n);
    assert forall|i: int| 0 <= i < from.len() implies opens_section(
        rows[i + 1],
        aid,
        c.architecture,
        origin,
        c.sections@[#[trigger] from[i]],
    ) && nodes[i + 1] == (NodeView::Leaf {
        label: c.sections@[from[i]].name@,
        leaf_id: LeafId((first + 1 + i) as usize),
    }) by {
        assert(rows[i + 1] == code_rows(aid, c, origin, n)[i]);
        assert(nodes[i + 1] == code_nodes(c.sections@, first + 1, n)[i]);
    }
    from
}

// ---- types -----------------------------------------------------------------

/// Rendered rows are joined by line breaks.
pub proof fn law_joined_rows(rows: Seq<Seq<char>>)
    ensures
        joined_rows(rows) == joined(rows, '\n'),
    decreases rows.len(),
{
    if rows.len() > 1 {
        law_joined_rows(rows.drop_last());
        lemma_joined_push(rows.drop_last(), rows.last(), '\n');
        reveal_strlit("\n");
        assert(rows.drop_last().push(rows.last()) =~= rows);
        assert("\n"@ =~= seq!['\n']);
        assert(joined(rows.drop_last(), '\n') + "\n"@ + rows.last() =~= joined(
            rows.drop_last(),
            '\n',
        ).push('\n') + rows.last());
    }
}

proof fn lemma_joined_push(rows: Seq<Seq<char>>, last: Seq<char>, sep: char)
    requires
        rows.len() > 0,
    ensures
        joined(rows.push(last), sep) == joined(rows, sep).push(sep) + last,
    decreases rows.len(),
{
    let all = rows.push(last);
    if rows.len() == 1 {
        assert(all.skip(1) =~= seq![last]);
        assert(joined(all.skip(1), sep) == last);
    } else {
        lemma_joined_push(rows.skip(1), last, sep);
        assert(all.skip(1) =~= rows.skip(1).push(last));
        assert(all[0] == rows[0]);
        let tail = joined(rows.skip(1), sep);
        assert(rows[0].push(sep) + (tail.push(sep) + last) =~= (rows[0].push(sep) + tail).push(sep)
            + last);
    }
}

/// A category is called after the class it extends, `?` where that is unknown, with
/// its own name in brackets.
pub proof fn law_category(c: Category)
    ensures
        category_item(c).rows == c.rows,
        category_item(c).pretty == c.pretty_base@ + "("@ + c.name@ + ")"@,
        c.class_name matches Some(b) ==> category_item(c).name == b@ + "("@ + c.name@ + ")"@,
        c.class_name is None ==> category_item(c).name == "?"@ + "("@ + c.name@ + ")"@,
{
}

/// The types of a binary: its Objective-C classes, then its categories; its Swift
/// types apart from them.
pub proof fn law_types(c: Container, i: int)
    ensures
        objc_of(c).len() == c.objc_classes@.len() + c.objc_categories@.len(),
        swift_of(c).len() == c.swift_types@.len(),
        0 <= i < c.objc_classes@.len() ==> {
            &&& objc_of(c)[i].name == c.objc_classes@[i].name@
            &&& objc_of(c)[i].pretty == c.objc_classes@[i].pretty@
            &&& objc_of(c)[i].rows == c.objc_classes@[i].rows
        },
        0 <= i < c.objc_categories@.len() ==> objc_of(c)[c.objc_classes@.len() + i] == category_item(
            c.objc_categories@[i],
        ),
        0 <= i < c.swift_types@.len() ==> {
            &&& swift_of(c)[i].name == c.swift_types@[i].name@
            &&& swift_of(c)[i].pretty == c.swift_types@[i].pretty@
            &&& swift_of(c)[i].rows == c.swift_types@[i].rows
        },
{
}

/// The leaf of a type shows its rendered rows under the name to show, and opens the
/// type by its stored name. The tree shows the leaves in the same order, numbered
/// from `first` on.
pub proof fn law_type_leaves(
    aid: Seq<u8>,
    swift: bool,
    items: Seq<ItemView>,
    origin: Seq<char>,
    first: int,
    i: int,
)
    requires
        0 <= i < items.len(),
    ensures
        item_rows(aid, swift, items, origin).len() == items.len(),
        item_nodes(items, first).len() == items.len(),
        ({
            let row = item_rows(aid, swift, items, origin)[i];
            &&& row.body == joined(strings(items[i].rows@), '\n')
            &&& row.origin == origin
            &&& row.label == items[i].pretty
            &&& swift ==> row.kind == (LeafKindView::SwiftType {
                artifact: aid,
                mangled_name: items[i].name,
            })
            &&& !swift ==> row.kind == (LeafKindView::ObjCClass {
                artifact: aid,
                class_name: items[i].name,
            })
        }),
        item_nodes(items, first)[i] == (NodeView::Leaf {
            label: items[i].pretty,
            leaf_id: LeafId((first + i) as usize),
        }),
{
    law_joined_rows(strings(items[i].rows@));
}

/// Types stand in a group of their own, which is left out where there are none.
pub proof fn law_type_group(title: Seq<char>, items: Seq<ItemView>, first: int)
    ensures
        items.len() == 0 ==> item_group(title, items, first).len() == 0,
        items.len() > 0 ==> item_group(title, items, first) == seq![
            NodeView::Group { label: title, children: item_nodes(items, first) },
        ],
{
}

/// The rendered rows of a type are found under its stored name; of types that share
/// one, those of the last. Nothing else changes.
pub proof fn law_rendered_types(m: MetaMap, aid: Seq<u8>, items: Seq<ItemView>, n: int)
    requires
        0 <= n <= items.len(),
    ensures
        forall|i: int|
            0 <= i < n && (forall|j: int| i < j < n ==> (#[trigger] items[j]).name != items[i].name)
                ==> {
                &&& with_items(m, aid, items, n).contains_key((aid, (#[trigger] items[i]).name))
                &&& with_items(m, aid, items, n)[(aid, items[i].name)] == items[i].rows
            },
        forall|a: Seq<u8>, name: Seq<char>|
            !(a == aid && exists|i: int| 0 <= i < n && (#[trigger] items[i]).name == name) ==> {
                &&& #[trigger] with_items(m, aid, items, n).contains_key((a, name))
                    == m.contains_key((a, name))
                &&& m.contains_key((a, name)) ==> with_items(m, aid, items, n)[(a, name)] == m[(
                    a,
                    name,
                )]
            },
    decreases n,
{
    if n > 0 {
        law_rendered_types(m, aid, items, n - 1);
        let before = with_items(m, aid, items, n - 1);
        let now = with_items(m, aid, items, n);
        assert forall|i: int|
            0 <= i < n && (forall|j: int|
                i < j < n ==> (#[trigger] items[j]).name != items[i].name) implies {
            &&& now.contains_key((aid, (#[trigger] items[i]).name))
            &&& now[(aid, items[i].name)] == items[i].rows
        } by {
            if i < n - 1 {
                assert(items[n - 1].name != items[i].name);
            }
        }
        assert forall|a: Seq<u8>, name: Seq<char>|
            !(a == aid && exists|i: int|
                0 <= i < n && (#[trigger] items[i]).name == name) implies {
            &&& #[trigger] now.contains_key((a, name)) == m.contains_key((a, name))
            &&& m.contains_key((a, name)) ==> now[(a, name)] == m[(a, name)]
        } by {
            assert(!(a == aid && items[n - 1].name == name));
            assert(before.contains_key((a, name)) == m.contains_key((a, name)));
        }
    }
}

// ---- names and entry points ------------------------------------------------

/// Each architecture has its word; a name is tagged with it only where the code
/// cannot be listed.
pub proof fn law_architecture_words(name: Seq<char>, arch: Architecture)
    ensures
        arch is Aarch64 ==> arch_word(arch) == "arm64"@,
        arch is Arm ==> arch_word(arch) == "arm32"@,
        arch is X86 ==> arch_word(arch) == "x86"@,
        arch is X86_64 ==> arch_word(arch) == "x86_64"@,
        arch is Other ==> arch_word(arch) == "other"@,
        !(arch is Other) ==> tagged(name, arch) == name,
        arch is Other ==> tagged(name, arch) == name + " ("@ + "other"@ + ")"@,
{
}

/// The addresses of the symbols that start in a section, in the order of the symbols.
/// The mode bit of an address does not count.
pub open spec fn lists_entries(
    syms: Seq<Symbol>,
    start: u64,
    size: u64,
    n: int,
    entries: Seq<u64>,
    from: Seq<int>,
) -> bool {
    &&& entries.len() == from.len()
    &&& forall|i: int|
        0 <= i < from.len() ==> 0 <= #[trigger] from[i] < n && entries[i] == syms[from[i]].address
            && entered_by(syms[from[i]].address, start, size)
    &&& forall|i: int, j: int| 0 <= i < j < from.len() ==> #[trigger] from[i] < #[trigger] from[j]
    &&& forall|k: int|
        0 <= k < n && entered_by((#[trigger] syms[k]).address, start, size) ==> from.contains(k)
}

/// An address, the mode bit aside, lies in a section.
pub open spec fn entered_by(a: u64, start: u64, size: u64) -> bool {
    start <= a - a % 2 < start + size
}

/// A disassembler begins at the symbols that start in a section, and nowhere else.
pub proof fn law_entry_points(syms: Seq<Symbol>, start: u64, size: u64, n: int) -> (from: Seq<int>)
    requires
        0 <= n <= syms.len(),
    ensures
        lists_entries(syms, start, size, n, entries_upto(syms, start, size, n), from),
    decreases n,
{
    if n <= 0 {
        Seq::empty()
    } else {
        let before = law_entry_points(syms, start, size, n - 1);
        let a = syms[n - 1].address;
        assert(a & !1u64 == a - a % 2) by (bit_vector);
        assert(enters(a, start, size) == entered_by(a, start, size));
        if enters(a, start, size) {
            let from = before.push(n - 1);
            let entries = entries_upto(syms, start, size, n);
            assert(from[before.len() as int] == n - 1);
            assert forall|i: int| 0 <= i < from.len() implies 0 <= #[trigger] from[i] < n
                && entries[i] == syms[from[i]].address && entered_by(
                syms[from[i]].address,
                start,
                size,
            ) by {
                if i < before.len() {
                    assert(from[i] == before[i]);
                }
            }
            assert forall|i: int, j: int| 0 <= i < j < from.len() implies #[trigger] from[i]
                < #[trigger] from[j] by {
                assert(from[i] == before[i]);
                if j < before.len() {
                    assert(from[j] == before[j]);
                }
            }
            assert forall|k: int|
                0 <= k < n && entered_by((#[trigger] syms[k]).address, start, size) implies
                from.contains(k) by {
                if k < n - 1 {
                    let i = choose|i: int| 0 <= i < before.len() && before[i] == k;
                    assert(from[i] == k);
                }
            }
            from
        } else {
            before
        }
    }
}

} // verus!

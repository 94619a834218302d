//! What the values that views are made of stand for.

use crate::bundle::LoadedBundle;
use crate::container::{Leaves, MetaItem, Natives};
use crate::hex::{hex_views, HexRow, HexRowView};
use crate::leaf::{LeafKind, LeafKindView};
use crate::listing::{listing_views, ListingRow, ListingRowView};
use crate::order::views;
use crate::palette::Palette;
use crate::table::{as_map, keys};
use crate::text::{char_rows, strings};
use crate::tree::{node_view, row_views, Node, NodeView, RowKind, RowView, VisibleRow};
use crate::xref::PaletteScope;
use vstd::prelude::*;

verus! {

/// A list stands for what its items stand for, in their order.
pub proof fn law_lists(a: Seq<String>, b: Seq<Vec<char>>, i: int)
    ensures
        strings(a).len() == a.len(),
        0 <= i < a.len() ==> strings(a)[i] == a[i]@,
        char_rows(b).len() == b.len(),
        0 <= i < b.len() ==> char_rows(b)[i] == b[i]@,
{
}

/// A list of values stands for what each of them stands for.
pub proof fn law_views<K: View>(s: Seq<K>, i: int)
    ensures
        views(s).len() == s.len(),
        0 <= i < s.len() ==> views(s)[i] == s[i]@,
{
}

/// A list of entries with distinct keys stands for the map from each key to its value.
pub proof fn law_entries<K: View, V>(entries: Seq<(K, V)>, i: int)
    requires
        0 <= i < entries.len(),
        forall|a: int, b: int|
            0 <= a < b < entries.len() ==> (#[trigger] entries[a]).0@ != (#[trigger] entries[b]).0@,
    ensures
        as_map(entries).contains_key(entries[i].0@),
        as_map(entries)[entries[i].0@] == entries[i].1,
        forall|k: K::V| #[trigger]
            as_map(entries).contains_key(k) ==> exists|j: int|
                0 <= j < entries.len() && (#[trigger] entries[j]).0@ == k,
{
    let ks = keys(entries);
    assert(ks[i] == entries[i].0@);
    assert(ks.contains(ks[i]));
    let j = ks.index_of(ks[i]);
    assert(0 <= j < ks.len() && ks[j] == ks[i]);
    assert(entries[j].0@ == entries[i].0@);
    if j < i {
        assert(entries[j].0@ != entries[i].0@);
    } else if i < j {
        assert(entries[i].0@ != entries[j].0@);
    }
    assert forall|k: K::V| #[trigger] as_map(entries).contains_key(k) implies exists|j: int|
        0 <= j < entries.len() && (#[trigger] entries[j]).0@ == k by {
        let j = choose|j: int| 0 <= j < ks.len() && ks[j] == k;
        assert(entries[j].0@ == k);
    }
}

/// A row of a hex view shows its own address, bytes and name.
pub proof fn law_hex_row(r: HexRow, rows: Seq<HexRow>, i: int)
    ensures
        r matches HexRow::SymbolHeader { address, name } ==> r@ == (HexRowView::SymbolHeader {
            address: address as int,
            name: name@,
        }),
        r matches HexRow::Bytes { address, bytes } ==> r@ == (HexRowView::Bytes {
            address: address as int,
            bytes: bytes@,
        }),
        hex_views(rows).len() == rows.len(),
        0 <= i < rows.len() ==> hex_views(rows)[i] == rows[i]@,
{
}

/// A row of a listing shows its own address, name and arrows.
pub proof fn law_listing_row(r: ListingRow, rows: Seq<ListingRow>, i: int)
    ensures
        r matches ListingRow::SymbolHeader { address, name } ==> r@
            == (ListingRowView::SymbolHeader { address: address as int, name: name@ }),
        r matches ListingRow::Instruction { address, arrows } ==> r@
            == (ListingRowView::Instruction { address: address as int, arrows: arrows@ }),
        r matches ListingRow::BasicBlockSeparator { arrows } ==> r@
            == (ListingRowView::BasicBlockSeparator { arrows: arrows@ }),
        listing_views(rows).len() == rows.len(),
        0 <= i < rows.len() ==> listing_views(rows)[i] == rows[i]@,
{
}

/// A visible row shows its own depth, label and state.
pub proof fn law_visible_row(r: VisibleRow, rows: Seq<VisibleRow>, i: int)
    ensures
        r.kind matches RowKind::Group { path, expanded, label } ==> r@ == (RowView::Group {
            depth: r.depth as int,
            path: path@,
            expanded,
            label: label@,
        }),
        r.kind matches RowKind::Leaf { leaf_id, label } ==> r@ == (RowView::Leaf {
            depth: r.depth as int,
            leaf_id,
            label: label@,
        }),
        row_views(rows).len() == rows.len(),
        0 <= i < rows.len() ==> row_views(rows)[i] == rows[i]@,
{
}

/// A node shows its own label, its children in their order, and the leaf it opens.
pub proof fn law_node(n: Node, i: int)
    ensures
        n matches Node::Leaf { label, leaf_id } ==> node_view(n) == (NodeView::Leaf {
            label: label@,
            leaf_id,
        }),
        n matches Node::Group { label, children } ==> {
            &&& node_view(n) is Group
            &&& node_view(n)->Group_label == label@
            &&& node_view(n)->children.len() == children@.len()
            &&& 0 <= i < children@.len() ==> node_view(n)->children[i] == node_view(children@[i])
        },
{
    if let Node::Group { label, children } = n {
        crate::tree::lemma_node_views(children@);
    }
}

/// What a leaf opens is told by its own artifact and names.
pub proof fn law_leaf_kind(k: LeafKind)
    ensures
        k matches LeafKind::SmaliClass { class_jni } ==> k@ == (LeafKindView::SmaliClass {
            class_jni: class_jni@,
        }),
        k matches LeafKind::Listing { artifact, section } ==> k@ == (LeafKindView::Listing {
            artifact: artifact@,
            section: section@,
        }),
        k matches LeafKind::Hex { artifact, section } ==> k@ == (LeafKindView::Hex {
            artifact: artifact@,
            section: section@,
        }),
        k matches LeafKind::SectionMap { artifact } ==> k@ == (LeafKindView::SectionMap {
            artifact: artifact@,
        }),
        k matches LeafKind::Manifest { artifact } ==> k@ == (LeafKindView::Manifest {
            artifact: artifact@,
        }),
        k matches LeafKind::Plist { artifact } ==> k@ == (LeafKindView::Plist {
            artifact: artifact@,
        }),
        k matches LeafKind::Cfg { artifact, entry_addr } ==> k@ == (LeafKindView::Cfg {
            artifact: artifact@,
            entry_addr,
        }),
        k matches LeafKind::DexCallGraph { class_jni, method_decl } ==> k@
            == (LeafKindView::DexCallGraph { class_jni: class_jni@, method_decl: method_decl@ }),
        k matches LeafKind::ObjCClass { artifact, class_name } ==> k@ == (LeafKindView::ObjCClass {
            artifact: artifact@,
            class_name: class_name@,
        }),
        k matches LeafKind::SwiftType { artifact, mangled_name } ==> k@
            == (LeafKindView::SwiftType { artifact: artifact@, mangled_name: mangled_name@ }),
{
}

/// Leaf `i` of a bundle is made of the entries `i` of its four lists.
pub proof fn law_bundle_leaf(b: LoadedBundle, i: int)
    requires
        b.parallel(),
    ensures
        b.leaves().len() == b.kinds@.len(),
        b.bodies@.len() == b.kinds@.len(),
        b.origins@.len() == b.kinds@.len(),
        b.labels@.len() == b.kinds@.len(),
        b.leaf_icons@.len() == b.kinds@.len(),
        0 <= i < b.kinds@.len() ==> {
            &&& b.leaves()[i].body == b.bodies@[i]@
            &&& b.leaves()[i].origin == b.origins@[i]@
            &&& b.leaves()[i].label == b.labels@[i]@
            &&& b.leaves()[i].kind == b.kinds@[i]@
        },
{
}

/// Leaf `i` of leaves under construction is made of the entries `i` of their lists.
pub proof fn law_collected_leaf(l: Leaves, i: int)
    requires
        l.wf(),
        0 <= i < l.kinds@.len(),
    ensures
        l@.len() == l.kinds@.len(),
        l@[i].body == l.bodies@[i]@,
        l@[i].origin == l.origins@[i]@,
        l@[i].label == l.labels@[i]@,
        l@[i].kind == l.kinds@[i]@,
{
}

/// What a bundle holds of its native artifacts is what its tables hold.
pub proof fn law_bundle_natives(b: LoadedBundle, aid: Seq<u8>)
    ensures
        b.natives().text == b.text_sections@,
        b.natives().data == b.data_sections@,
        b.natives().infos.contains_key(aid) <==> b.native_sections@.contains_key(aid),
        b.native_sections@.contains_key(aid) ==> b.natives().infos[aid]
            == b.native_sections@[aid]@,
        b.natives().labels.contains_key(aid) <==> b.native_artifact_labels@.contains_key(aid),
        b.native_artifact_labels@.contains_key(aid) ==> b.natives().labels[aid]
            == b.native_artifact_labels@[aid]@,
{
}

/// What is held of native artifacts under construction is what the tables hold.
pub proof fn law_held_natives(n: Natives, aid: Seq<u8>)
    ensures
        n@.text == n.text_sections@,
        n@.data == n.data_sections@,
        n@.infos.contains_key(aid) <==> n.native_sections@.contains_key(aid),
        n.native_sections@.contains_key(aid) ==> n@.infos[aid] == n.native_sections@[aid]@,
        n@.labels.contains_key(aid) <==> n.native_artifact_labels@.contains_key(aid),
        n.native_artifact_labels@.contains_key(aid) ==> n@.labels[aid]
            == n.native_artifact_labels@[aid]@,
{
}

/// A type stands for its own names and rows.
pub proof fn law_type_view(m: MetaItem)
    ensures
        m@.name == m.name@,
        m@.pretty == m.pretty@,
        m@.rows == m.rows,
{
}

/// A scope stands for its own label, entries, progress and source.
pub proof fn law_scope_view(s: PaletteScope)
    ensures
        s@.label == s.label@,
        s@.entries == s.entries@,
        s@.progress == s.progress,
        s@.source == s.source,
{
}

/// The state of the palette is that of its fields.
pub proof fn law_palette_view(p: Palette)
    ensures
        p@.open == p.open,
        p@.focused == p.focused,
        p@.mode == p.mode,
        p@.query == p.query@,
        p@.selected == p.selected,
        p@.list_len == p.list_len,
        p@.scope is Some <==> p.scope is Some,
        p.scope matches Some(s) ==> p@.scope == Some(s@),
        p@.bin_query == p.bin_query@,
        p@.bin_grammar == p.bin_grammar,
        p@.bin_code_only == p.bin_code_only,
        p@.bin_artifact == p.bin_artifact,
        p@.bin_results == p.bin_results,
        p@.bin_sources == p.bin_sources@,
        p@.bin_error is Some <==> p.bin_error is Some,
        p.bin_error matches Some(e) ==> p@.bin_error == Some(e@),
        p@.asm_candidates == strings(p.asm_candidates@),
        p@.asm_selected == p.asm_selected,
        p@.annotating == p.annotating,
{
}

} // verus!

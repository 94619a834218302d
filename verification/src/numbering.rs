//! Every leaf of a bundle stands in its tree exactly once.

use crate::container::{
    code_count, code_nodes, item_group, item_nodes, lemma_native_rows_len, native_nodes, objc_of,
    swift_of, Container, ItemView, Section,
};
use crate::leaf::LeafId;
use crate::loader::{
    abi_groups, abi_nodes, abis, apk_rows, apk_tree, artifact_group, artifact_nodes, artifact_rows,
    class_entries, class_rows, dex_entries, framework_nodes, ipa_frameworks, ipa_main, ipa_tree,
    lib_node, lib_rows, libs_rows, main_name, manifest_leaf, manifest_node, ApkInput, DexFile,
    IpaInput, NativeLib,
};
use crate::order::{ascending, lemma_sorted_list_exists, sorted_list, Rank};
use crate::packages::{
    class_parts, class_path, entry_count, law_no_class_is_lost, leaf_count, leaf_counts,
    lemma_leaf_counts_append, lemma_leaf_counts_push, package_nodes, pieces_from, EntryView,
};
use crate::sections::SectionKind;
use crate::tree::NodeView;
use vstd::prelude::*;

verus! {

/// One for the numbers from `first` to before `first + count`, zero for others.
pub open spec fn one_of(id: usize, first: int, count: int) -> int {
    if first <= id < first + count {
        1
    } else {
        0
    }
}

/// How often leaf `id` stands in a tree.
pub open spec fn times_shown(nodes: Seq<NodeView>, id: usize) -> int {
    leaf_counts(nodes, LeafId(id), nodes.len() as int)
}

proof fn lemma_append(a: Seq<NodeView>, b: Seq<NodeView>, id: usize)
    ensures
        times_shown(a + b, id) == times_shown(a, id) + times_shown(b, id),
{
    lemma_leaf_counts_append(a, b, LeafId(id), b.len() as int);
    assert((a + b).len() == a.len() + b.len());
}

proof fn lemma_single(n: NodeView, id: usize)
    ensures
        times_shown(seq![n], id) == leaf_count(n, LeafId(id)),
        times_shown(Seq::empty(), id) == 0,
{
    assert(leaf_counts(seq![n], LeafId(id), 0) == 0);
    assert(seq![n][0] == n);
}

proof fn lemma_push(a: Seq<NodeView>, n: NodeView, id: usize)
    ensures
        times_shown(a.push(n), id) == times_shown(a, id) + leaf_count(n, LeafId(id)),
{
    lemma_leaf_counts_push(a, n, LeafId(id));
}

proof fn lemma_code_nodes(sections: Seq<Section>, first: int, n: int, id: usize)
    requires
        0 <= first,
        0 <= n,
        first + code_count(sections, n) <= usize::MAX,
    ensures
        times_shown(code_nodes(sections, first, n), id) == one_of(
            id,
            first,
            code_count(sections, n),
        ),
        code_count(sections, n) >= 0,
    decreases n,
{
    if n > 0 {
        lemma_code_count(sections, n - 1);
        lemma_code_nodes(sections, first, n - 1, id);
        if sections[n - 1].kind == SectionKind::Text {
            lemma_push(
                code_nodes(sections, first, n - 1),
                NodeView::Leaf {
                    label: sections[n - 1].name@,
                    leaf_id: LeafId((first + code_count(sections, n - 1)) as usize),
                },
                id,
            );
        }
    }
}

proof fn lemma_code_count(sections: Seq<Section>, n: int)
    ensures
        code_count(sections, n) >= 0,
    decreases n,
{
    if n > 0 {
        lemma_code_count(sections, n - 1);
    }
}

/// The number of leaves of an artifact, types aside.
spec fn native_size(c: Container) -> int {
    1 + code_count(c.sections@, c.sections@.len() as int)
}

proof fn lemma_native_nodes(c: Container, first: int, id: usize)
    requires
        0 <= first,
        first + native_size(c) <= usize::MAX,
    ensures
        times_shown(native_nodes(c, first), id) == one_of(id, first, native_size(c)),
        native_size(c) >= 1,
{
    let n = c.sections@.len() as int;
    let top = NodeView::Leaf { label: "Overview"@, leaf_id: LeafId(first as usize) };
    lemma_code_count(c.sections@, n);
    lemma_single(top, id);
    lemma_code_nodes(c.sections@, first + 1, n, id);
    lemma_append(seq![top], code_nodes(c.sections@, first + 1, n), id);
}

proof fn lemma_item_nodes(items: Seq<ItemView>, first: int, n: int, id: usize)
    requires
        0 <= first,
        0 <= n <= items.len(),
        first + n <= usize::MAX,
    ensures
        leaf_counts(item_nodes(items, first), LeafId(id), n) == one_of(id, first, n),
    decreases n,
{
    if n > 0 {
        lemma_item_nodes(items, first, n - 1, id);
        let nodes = item_nodes(items, first);
        assert(leaf_counts(nodes, LeafId(id), n) == leaf_counts(nodes, LeafId(id), n - 1)
            + leaf_count(nodes[n - 1], LeafId(id)));
        assert(nodes[n - 1] == (NodeView::Leaf {
            label: items[n - 1].pretty,
            leaf_id: LeafId((first + n - 1) as usize),
        }));
    }
}

proof fn lemma_item_group(title: Seq<char>, items: Seq<ItemView>, first: int, id: usize)
    requires
        0 <= first,
        first + items.len() <= usize::MAX,
    ensures
        times_shown(item_group(title, items, first), id) == one_of(id, first, items.len() as int),
{
    if items.len() > 0 {
        lemma_item_nodes(items, first, items.len() as int, id);
        lemma_single(NodeView::Group { label: title, children: item_nodes(items, first) }, id);
    }
}

/// The number of leaves of an artifact.
pub open spec fn artifact_size(c: Container) -> int {
    1 + code_count(c.sections@, c.sections@.len() as int) + objc_of(c).len() + swift_of(c).len()
}

proof fn lemma_artifact_nodes(c: Container, first: int, id: usize)
    requires
        0 <= first,
        first + artifact_size(c) <= usize::MAX,
    ensures
        times_shown(artifact_nodes(c, first), id) == one_of(id, first, artifact_size(c)),
        artifact_size(c) >= 1,
{
    let objc = first + native_size(c);
    let swift = objc + objc_of(c).len();
    lemma_code_count(c.sections@, c.sections@.len() as int);
    lemma_native_nodes(c, first, id);
    lemma_item_group("Objective-C"@, objc_of(c), objc, id);
    lemma_item_group("Swift"@, swift_of(c), swift, id);
    let a = native_nodes(c, first);
    let b = item_group("Objective-C"@, objc_of(c), objc);
    let d = item_group("Swift"@, swift_of(c), swift);
    lemma_append(a, b, id);
    lemma_append(a + b, d, id);
    assert(artifact_nodes(c, first) == a + b + d);
}

proof fn lemma_artifact_rows(
    aid: Seq<u8>,
    c: Container,
    name: Seq<char>,
    origin: Seq<char>,
    type_origin: Seq<char>,
)
    ensures
        artifact_rows(aid, c, name, origin, type_origin).len() == artifact_size(c),
{
    lemma_native_rows_len(
        aid,
        c,
        origin,
        crate::container::tagged(name, c.architecture) + " (overview)"@,
    );
}

/// Every leaf of a standalone binary stands in its tree exactly once.
pub proof fn law_binary_tree_shows_each_leaf_once(
    c: Container,
    aid: Seq<u8>,
    name: Seq<char>,
    origin: Seq<char>,
    type_origin: Seq<char>,
    id: usize,
)
    requires
        artifact_rows(aid, c, name, origin, type_origin).len() <= usize::MAX,
    ensures
        times_shown(artifact_nodes(c, 0), id) == one_of(
            id,
            0,
            artifact_rows(aid, c, name, origin, type_origin).len() as int,
        ),
{
    lemma_artifact_rows(aid, c, name, origin, type_origin);
    lemma_artifact_nodes(c, 0, id);
}

// ---- iOS archives ----------------------------------------------------------

proof fn lemma_ipa_main(input: IpaInput)
    ensures
        ipa_main(input).rows.len() == 1 + match input.main_executable {
            Some(b) => artifact_size(b.container),
            None => 0,
        },
{
    if let Some(b) = input.main_executable {
        lemma_artifact_rows(
            crate::ids::blake3_digest(b.bytes@),
            b.container,
            main_name(input.executable),
            "main"@,
            "main"@,
        );
    }
}

proof fn lemma_ipa_step(input: IpaInput, n: int)
    requires
        0 < n <= input.frameworks@.len(),
    ensures
        ipa_frameworks(input, n).rows.len() == ipa_frameworks(input, n - 1).rows.len()
            + match input.frameworks@[n - 1].binary {
            Some(b) => artifact_size(b.container),
            None => 0,
        },
{
    if let Some(b) = input.frameworks@[n - 1].binary {
        lemma_artifact_rows(
            crate::ids::blake3_digest(b.bytes@),
            b.container,
            input.frameworks@[n - 1].name@,
            "Frameworks"@,
            "Frameworks"@,
        );
    }
}

proof fn lemma_framework_nodes(input: IpaInput, n: int, id: usize)
    requires
        0 <= n <= input.frameworks@.len(),
        ipa_frameworks(input, n).rows.len() <= usize::MAX,
    ensures
        times_shown(framework_nodes(input, n), id) == one_of(
            id,
            ipa_main(input).rows.len() as int,
            ipa_frameworks(input, n).rows.len() - ipa_main(input).rows.len(),
        ),
        ipa_main(input).rows.len() <= ipa_frameworks(input, n).rows.len(),
    decreases n,
{
    if n > 0 {
        lemma_ipa_step(input, n);
        let before = ipa_frameworks(input, n - 1).rows.len() as int;
        match input.frameworks@[n - 1].binary {
            Some(b) => {
                lemma_code_count(b.container.sections@, b.container.sections@.len() as int);
                lemma_framework_nodes(input, n - 1, id);
                lemma_artifact_nodes(b.container, before, id);
                lemma_push(
                    framework_nodes(input, n - 1),
                    artifact_group(input.frameworks@[n - 1].name@, b.container, before),
                    id,
                );
            },
            None => {
                lemma_framework_nodes(input, n - 1, id);
            },
        }
    }
}

/// Every leaf of an iOS archive stands in its tree exactly once.
pub proof fn law_ipa_tree_shows_each_leaf_once(input: IpaInput, id: usize)
    requires
        ipa_frameworks(input, input.frameworks@.len() as int).rows.len() <= usize::MAX,
    ensures
        times_shown(ipa_tree(input), id) == one_of(
            id,
            0,
            ipa_frameworks(input, input.frameworks@.len() as int).rows.len() as int,
        ),
{
    let n = input.frameworks@.len() as int;
    let plist = NodeView::Leaf { label: "Info.plist"@, leaf_id: LeafId(0) };
    lemma_ipa_main(input);
    lemma_framework_nodes(input, n, id);
    lemma_single(plist, id);
    let main = match input.main_executable {
        Some(b) => seq![artifact_group(main_name(input.executable), b.container, 1)],
        None => Seq::empty(),
    };
    if let Some(b) = input.main_executable {
        lemma_artifact_nodes(b.container, 1, id);
        lemma_single(artifact_group(main_name(input.executable), b.container, 1), id);
    }
    let nodes = framework_nodes(input, n);
    let group = NodeView::Group { label: "Frameworks"@, children: nodes };
    let frameworks = if nodes.len() > 0 {
        seq![group]
    } else {
        Seq::empty()
    };
    lemma_single(group, id);
    lemma_append(seq![plist], main, id);
    lemma_append(seq![plist] + main, frameworks, id);
}

// ---- Android archives ------------------------------------------------------

proof fn lemma_parts(jni: Seq<char>)
    ensures
        class_parts(jni).len() > 0,
{
    assert(pieces_from(class_path(jni), '/', 0).len() > 0);
}

proof fn lemma_entry_append(a: Seq<EntryView>, b: Seq<EntryView>, id: LeafId)
    ensures
        entry_count(a + b, id) == entry_count(a, id) + entry_count(b, id),
    decreases b.len(),
{
    if b.len() == 0 {
        assert(a + b =~= a);
    } else {
        lemma_entry_append(a, b.drop_last(), id);
        assert((a + b).drop_last() =~= a + b.drop_last());
        assert((a + b).last() == b.last());
    }
}

proof fn lemma_dex_entries(dex: DexFile, first: int, n: int, id: usize)
    requires
        0 <= first,
        0 <= n <= dex.classes@.len(),
        first + n <= usize::MAX,
    ensures
        entry_count(dex_entries(dex, first, n), LeafId(id)) == one_of(id, first, n),
    decreases n,
{
    if n > 0 {
        lemma_dex_entries(dex, first, n - 1, id);
        let all = dex_entries(dex, first, n);
        assert(all.drop_last() =~= dex_entries(dex, first, n - 1));
        lemma_parts(dex.classes@[n - 1].jni@);
    }
}

proof fn lemma_class_entries(dexes: Seq<DexFile>, first: int, n: int, id: usize)
    requires
        0 <= first,
        0 <= n <= dexes.len(),
        first + class_rows(dexes, n).len() <= usize::MAX,
    ensures
        entry_count(class_entries(dexes, first, n), LeafId(id)) == one_of(
            id,
            first,
            class_rows(dexes, n).len() as int,
        ),
    decreases n,
{
    if n > 0 {
        let dex = dexes[n - 1];
        let k = dex.classes@.len() as int;
        let before = class_rows(dexes, n - 1).len() as int;
        assert(class_rows(dexes, n).len() == before + k);
        lemma_class_entries(dexes, first, n - 1, id);
        lemma_dex_entries(dex, first + before, k, id);
        lemma_entry_append(
            class_entries(dexes, first, n - 1),
            dex_entries(dex, first + before, k),
            LeafId(id),
        );
    }
}

proof fn lemma_lib_rows(l: NativeLib)
    ensures
        lib_rows(l).len() == native_size(l.binary.container),
{
    lemma_native_rows_len(
        crate::loader::lib_id(l),
        l.binary.container,
        "lib/"@ + l.abi@,
        l.name@ + " (overview)"@,
    );
}

/// How often leaf `id` stands below the first `k` ABIs, the first `n` libraries
/// alone counted.
spec fn abi_shown(libs: Seq<NativeLib>, base: int, names: Seq<Seq<char>>, n: int, k: int, id: usize) -> int
    decreases k,
{
    if k <= 0 {
        0
    } else {
        abi_shown(libs, base, names, n, k - 1, id) + times_shown(
            abi_nodes(libs, base, names[k - 1], n),
            id,
        )
    }
}

/// One library more adds its leaves to its own ABI only.
proof fn lemma_abi_step(
    libs: Seq<NativeLib>,
    base: int,
    names: Seq<Seq<char>>,
    n: int,
    k: int,
    id: usize,
)
    requires
        0 < n <= libs.len(),
        0 <= k <= names.len(),
        ascending::<String>(names),
    ensures
        ({
            let l = libs[n - 1];
            let node = lib_node(l, base + libs_rows(libs, n - 1).len());
            let here = exists|i: int| 0 <= i < k && names[i] == l.abi@;
            abi_shown(libs, base, names, n, k, id) == abi_shown(libs, base, names, n - 1, k, id)
                + if here {
                leaf_count(node, LeafId(id))
            } else {
                0
            }
        }),
    decreases k,
{
    if k > 0 {
        lemma_abi_step(libs, base, names, n, k - 1, id);
        let l = libs[n - 1];
        let node = lib_node(l, base + libs_rows(libs, n - 1).len());
        if names[k - 1] == l.abi@ {
            lemma_push(abi_nodes(libs, base, l.abi@, n - 1), node, id);
            assert forall|i: int| 0 <= i < k - 1 implies names[i] != l.abi@ by {
                String::irreflexive(names[i]);
                assert(String::before(names[i], names[k - 1]));
            }
        } else if exists|i: int| 0 <= i < k - 1 && names[i] == l.abi@ {
            let i = choose|i: int| 0 <= i < k - 1 && names[i] == l.abi@;
            assert(names[i] == l.abi@);
        }
    }
}

proof fn lemma_abi_none(libs: Seq<NativeLib>, base: int, names: Seq<Seq<char>>, k: int, id: usize)
    requires
        0 <= k <= names.len(),
    ensures
        abi_shown(libs, base, names, 0, k, id) == 0,
    decreases k,
{
    if k > 0 {
        lemma_abi_none(libs, base, names, k - 1, id);
        assert(abi_nodes(libs, base, names[k - 1], 0) =~= Seq::empty());
    }
}

proof fn lemma_abi_shown(libs: Seq<NativeLib>, base: int, names: Seq<Seq<char>>, n: int, id: usize)
    requires
        0 <= base,
        0 <= n <= libs.len(),
        base + libs_rows(libs, n).len() <= usize::MAX,
        ascending::<String>(names),
        forall|x: Seq<char>| #[trigger] names.contains(x) <==> abis(libs).contains(x),
    ensures
        abi_shown(libs, base, names, n, names.len() as int, id) == one_of(
            id,
            base,
            libs_rows(libs, n).len() as int,
        ),
    decreases n,
{
    let k = names.len() as int;
    if n == 0 {
        lemma_abi_none(libs, base, names, k, id);
    } else {
        let l = libs[n - 1];
        let before = libs_rows(libs, n - 1).len() as int;
        lemma_lib_rows(l);
        assert(libs_rows(libs, n).len() == before + native_size(l.binary.container));
        lemma_code_count(l.binary.container.sections@, l.binary.container.sections@.len() as int);
        lemma_abi_shown(libs, base, names, n - 1, id);
        lemma_abi_step(libs, base, names, n, k, id);
        lemma_native_nodes(l.binary.container, base + before, id);
        assert(abis(libs)[n - 1] == l.abi@);
        assert(names.contains(l.abi@));
        let i = names.index_of(l.abi@);
        assert(names[i] == l.abi@);
    }
}

proof fn lemma_abi_groups(libs: Seq<NativeLib>, base: int, names: Seq<Seq<char>>, k: int, id: usize)
    requires
        0 <= k <= names.len(),
    ensures
        leaf_counts(abi_groups(libs, base, names), LeafId(id), k) == abi_shown(
            libs,
            base,
            names,
            libs.len() as int,
            k,
            id,
        ),
    decreases k,
{
    if k > 0 {
        lemma_abi_groups(libs, base, names, k - 1, id);
        let nodes = abi_groups(libs, base, names);
        assert(leaf_counts(nodes, LeafId(id), k) == leaf_counts(nodes, LeafId(id), k - 1)
            + leaf_count(nodes[k - 1], LeafId(id)));
        assert(nodes[k - 1] == (NodeView::Group {
            label: names[k - 1],
            children: abi_nodes(libs, base, names[k - 1], libs.len() as int),
        }));
    }
}

/// Every leaf of an Android archive stands in its tree exactly once.
pub proof fn law_apk_tree_shows_each_leaf_once(input: ApkInput, id: usize)
    requires
        apk_rows(input).len() <= usize::MAX,
    ensures
        times_shown(apk_tree(input), id) == one_of(id, 0, apk_rows(input).len() as int),
{
    let dexes = input.dex_files@;
    let libs = input.native_libs@;
    let d = dexes.len() as int;
    let first = manifest_leaf(input).len() as int;
    let rows = class_rows(dexes, d).len() as int;
    let base = first + rows;
    let entries = class_entries(dexes, first, d);
    lemma_class_entries(dexes, first, d, id);
    law_no_class_is_lost(entries, LeafId(id));
    let class_group = NodeView::Group { label: "Classes"@, children: package_nodes(entries) };
    lemma_single(class_group, id);
    let names = sorted_list::<String>(abis(libs));
    lemma_sorted_list_exists::<String>(abis(libs));
    lemma_abi_shown(libs, base, names, libs.len() as int, id);
    lemma_abi_groups(libs, base, names, names.len() as int, id);
    assert(abi_groups(libs, base, names).len() == names.len());
    let lib_group = NodeView::Group {
        label: "lib"@,
        children: abi_groups(libs, base, names),
    };
    lemma_single(lib_group, id);
    let classes = if dexes.len() > 0 {
        seq![class_group]
    } else {
        Seq::empty()
    };
    let natives = if libs.len() > 0 {
        seq![lib_group]
    } else {
        Seq::empty()
    };
    lemma_single(NodeView::Leaf { label: "AndroidManifest.xml"@, leaf_id: LeafId(0) }, id);
    lemma_append(manifest_node(input), classes, id);
    lemma_append(manifest_node(input) + classes, natives, id);
}

} // verus!

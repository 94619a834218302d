//! What loading an archive leaves: its leaves, its tree, and its texts.

use crate::bundle::LoadedBundle;
use crate::container::{
    item_group, item_nodes, item_rows, lemma_native_rows_len, native_nodes, native_rows, objc_of,
    swift_of, tagged, texts, Container, ItemView, LeafRowView,
};
use crate::digits::{hex, zero_padded};
use crate::icons::{are_icons_of, is_icon_of, source_of};
use crate::ids::{blake3_digest, joined_ids, ArtifactId};
use crate::laws::leaves::{law_native_leaves, law_type_leaves};
use crate::leaf::{LeafId, LeafKind, LeafKindView};
use crate::loader::{
    abi_groups, abi_nodes, abis, apk_ids, apk_rows, apk_runs, apk_shows, apk_steps, apk_tree,
    artifact_group, artifact_nodes, artifact_rows, class_entries, class_rows, class_sources,
    dex_entries, dex_rows, disasm_text, framework_nodes, ipa_frameworks, ipa_main, ipa_parts,
    ipa_tree, is_apk_bundle, is_ipa_bundle, lib_id, lib_node, lib_rows, libs_rows, loader_for,
    main_name, manifest_leaf, manifest_node, plist_node, plist_row, smali_texts, source_name,
    with_dex, with_sources, ApkInput, DexFile, DisasmRow, IpaInput, NativeLib, Progress,
    DISASM_ROWS,
};
use crate::order::{lemma_sorted_list_exists, sorted_list, text_before};
use crate::packages::{
    class_leaves, class_parts, collapsed, inside, package_groups, package_names, package_nodes,
    weight, EntryView,
};
use crate::tree::NodeView;
use vstd::prelude::*;

verus! {

// ---- classes ---------------------------------------------------------------

/// The number of classes in the first `n` DEX files.
pub open spec fn classes_before(dexes: Seq<DexFile>, n: int) -> int
    decreases n,
{
    if n <= 0 {
        0
    } else {
        classes_before(dexes, n - 1) + dexes[n - 1].classes@.len()
    }
}

/// The leaf of class `i` of a DEX file: its smali text, under the name of the file,
/// titled by the last part of its name.
pub open spec fn opens_class(row: LeafRowView, dex: DexFile, i: int) -> bool {
    &&& row.body == dex.classes@[i].smali@
    &&& row.origin == dex.name@
    &&& row.label == class_parts(dex.classes@[i].jni@).last()
    &&& row.kind == (LeafKindView::SmaliClass { class_jni: dex.classes@[i].jni@ })
}

proof fn lemma_class_rows(dexes: Seq<DexFile>, n: int, d: int, i: int)
    requires
        0 <= n <= dexes.len(),
    ensures
        class_rows(dexes, n).len() == classes_before(dexes, n),
        0 <= d < n && 0 <= i < dexes[d].classes@.len() ==> {
            let at = classes_before(dexes, d) + i;
            0 <= at < class_rows(dexes, n).len() && opens_class(
                class_rows(dexes, n)[at],
                dexes[d],
                i,
            )
        },
    decreases n,
{
    if n > 0 {
        lemma_class_rows(dexes, n - 1, d, i);
        let before = class_rows(dexes, n - 1);
        let more = dex_rows(dexes[n - 1], dexes[n - 1].classes@.len() as int);
        if 0 <= d < n && 0 <= i < dexes[d].classes@.len() {
            let at = classes_before(dexes, d) + i;
            if d == n - 1 {
                assert(class_rows(dexes, n)[at] == more[i]);
            } else {
                assert(class_rows(dexes, n)[at] == before[at]);
            }
        }
    }
}

/// The number of leaves before the classes: one where there is a manifest.
pub open spec fn leaves_before_classes(input: ApkInput) -> int {
    if input.manifest is Some && input.manifest_bytes is Some {
        1
    } else {
        0
    }
}

/// The leaves of an Android archive begin with the manifest, where it has one. The
/// classes follow, file by file, then the libraries.
pub proof fn law_apk_leaves(r: LoadedBundle, input: ApkInput, d: int, i: int)
    requires
        is_apk_bundle(r, input),
    ensures
        ({
            let rows = r.leaves();
            let dexes = input.dex_files@;
            let m = leaves_before_classes(input);
            let at = m + classes_before(dexes, d) + i;
            &&& m == 1 ==> {
                &&& rows.len() > 0
                &&& rows[0].label == "AndroidManifest.xml"@
                &&& rows[0].origin == "manifest"@
                &&& rows[0].body == ""@
                &&& rows[0].kind == (LeafKindView::Manifest {
                    artifact: blake3_digest(input.manifest_bytes->0@),
                })
            }
            &&& 0 <= d < dexes.len() && 0 <= i < dexes[d].classes@.len() ==> 0 <= at < rows.len()
                && opens_class(rows[at], dexes[d], i)
            &&& rows.len() == m + classes_before(dexes, dexes.len() as int) + libs_rows(
                input.native_libs@,
                input.native_libs@.len() as int,
            ).len()
        }),
{
    let dexes = input.dex_files@;
    let rows = apk_rows(input);
    lemma_class_rows(dexes, dexes.len() as int, d, i);
    let m = leaves_before_classes(input);
    assert(manifest_leaf(input).len() == m);
    if 0 <= d < dexes.len() && 0 <= i < dexes[d].classes@.len() {
        let at = classes_before(dexes, d) + i;
        assert(rows[m + at] == class_rows(dexes, dexes.len() as int)[at]);
    }
}

proof fn lemma_libs(libs: Seq<NativeLib>, n: int, l: int, k: int)
    requires
        0 <= n <= libs.len(),
    ensures
        0 <= l < n && 0 <= k < lib_rows(libs[l]).len() ==> {
            let at = libs_rows(libs, l).len() + k;
            0 <= at < libs_rows(libs, n).len() && libs_rows(libs, n)[at] == lib_rows(libs[l])[k]
        },
    decreases n,
{
    if n > 0 {
        lemma_libs(libs, n - 1, l, k);
        if 0 <= l < n && 0 <= k < lib_rows(libs[l]).len() {
            let at = libs_rows(libs, l).len() + k;
            if l == n - 1 {
                assert(libs_rows(libs, n)[at] == lib_rows(libs[n - 1])[k]);
            } else {
                assert(libs_rows(libs, n)[at] == libs_rows(libs, n - 1)[at]);
            }
        }
    }
}

/// The leaves of library `l` of an Android archive are those of its binary, under
/// `lib/` and its ABI, one library after the other.
pub proof fn law_apk_library_leaves(r: LoadedBundle, input: ApkInput, l: int, k: int)
    requires
        is_apk_bundle(r, input),
        0 <= l < input.native_libs@.len(),
        ({
            let lib = input.native_libs@[l];
            0 <= k < native_rows(
                blake3_digest(lib.binary.bytes@),
                lib.binary.container,
                "lib/"@ + lib.abi@,
                lib.name@ + " (overview)"@,
            ).len()
        }),
    ensures
        ({
            let lib = input.native_libs@[l];
            let at = leaves_before_classes(input) + classes_before(
                input.dex_files@,
                input.dex_files@.len() as int,
            ) + libs_rows(input.native_libs@, l).len() + k;
            &&& 0 <= at < r.leaves().len()
            &&& r.leaves()[at] == native_rows(
                blake3_digest(lib.binary.bytes@),
                lib.binary.container,
                "lib/"@ + lib.abi@,
                lib.name@ + " (overview)"@,
            )[k]
        }),
{
    let libs = input.native_libs@;
    let dexes = input.dex_files@;
    lemma_libs(libs, libs.len() as int, l, k);
    lemma_class_rows(dexes, dexes.len() as int, 0, 0);
    assert(manifest_leaf(input).len() == leaves_before_classes(input));
    let at = libs_rows(libs, l).len() + k;
    let before = manifest_leaf(input) + class_rows(dexes, dexes.len() as int);
    assert(apk_rows(input)[before.len() + at] == libs_rows(libs, libs.len() as int)[at]);
}

// ---- texts by class --------------------------------------------------------

/// Class `i` of DEX file `d` is `jni` in an artifact with that identity.
pub open spec fn is_class(dexes: Seq<DexFile>, d: int, i: int, aid: Seq<u8>, jni: Seq<char>) -> bool {
    &&& 0 <= d < dexes.len()
    &&& 0 <= i < dexes[d].classes@.len()
    &&& blake3_digest(dexes[d].bytes@) == aid
    &&& dexes[d].classes@[i].jni@ == jni
}

/// Class `i` of DEX file `d` comes before class `j` of DEX file `e`.
pub open spec fn comes_before(d: int, i: int, e: int, j: int) -> bool {
    d < e || (d == e && i < j)
}

proof fn lemma_dex_texts(
    m: Map<(Seq<u8>, Seq<char>), Seq<char>>,
    dex: DexFile,
    n: int,
    aid: Seq<u8>,
    jni: Seq<char>,
) -> (i: int)
    requires
        0 <= n <= dex.classes@.len(),
    ensures
        ({
            let now = with_dex(m, dex, n);
            ||| {
                &&& 0 <= i < n
                &&& blake3_digest(dex.bytes@) == aid
                &&& dex.classes@[i].jni@ == jni
                &&& now.contains_key((aid, jni))
                &&& now[(aid, jni)] == dex.classes@[i].smali@
                &&& forall|j: int| i < j < n ==> (#[trigger] dex.classes@[j]).jni@ != jni
            }
            ||| {
                &&& i == -1
                &&& !(blake3_digest(dex.bytes@) == aid && exists|j: int|
                    0 <= j < n && (#[trigger] dex.classes@[j]).jni@ == jni)
                &&& now.contains_key((aid, jni)) == m.contains_key((aid, jni))
                &&& m.contains_key((aid, jni)) ==> now[(aid, jni)] == m[(aid, jni)]
            }
        }),
    decreases n,
{
    if n <= 0 {
        -1
    } else {
        let i = lemma_dex_texts(m, dex, n - 1, aid, jni);
        if blake3_digest(dex.bytes@) == aid && dex.classes@[n - 1].jni@ == jni {
            n - 1
        } else {
            i
        }
    }
}

proof fn lemma_texts(dexes: Seq<DexFile>, n: int, aid: Seq<u8>, jni: Seq<char>) -> (r: (int, int))
    requires
        0 <= n <= dexes.len(),
    ensures
        ({
            let now = smali_texts(dexes, n);
            ||| {
                &&& r.0 < n
                &&& is_class(dexes, r.0, r.1, aid, jni)
                &&& now.contains_key((aid, jni))
                &&& now[(aid, jni)] == dexes[r.0].classes@[r.1].smali@
                &&& forall|e: int, j: int|
                    e < n && comes_before(r.0, r.1, e, j) ==> !#[trigger] is_class(
                        dexes,
                        e,
                        j,
                        aid,
                        jni,
                    )
            }
            ||| {
                &&& r.0 == -1
                &&& !now.contains_key((aid, jni))
                &&& forall|e: int, j: int| e < n ==> !#[trigger] is_class(dexes, e, j, aid, jni)
            }
        }),
    decreases n,
{
    if n <= 0 {
        (-1, 0)
    } else {
        let (d, i) = lemma_texts(dexes, n - 1, aid, jni);
        let dex = dexes[n - 1];
        let k = lemma_dex_texts(
            smali_texts(dexes, n - 1),
            dex,
            dex.classes@.len() as int,
            aid,
            jni,
        );
        if k >= 0 {
            assert forall|e: int, j: int| e < n && comes_before(n - 1, k, e, j) implies
                !#[trigger] is_class(dexes, e, j, aid, jni) by {}
            (n - 1, k)
        } else {
            assert forall|j: int| !#[trigger] is_class(dexes, n - 1, j, aid, jni) by {}
            (d, i)
        }
    }
}

/// The smali text of a class is found under its artifact and name; of classes that
/// share both, that of the last. No other class has a text.
pub proof fn law_class_texts(r: LoadedBundle, input: ApkInput, aid: Seq<u8>, jni: Seq<char>)
    requires
        is_apk_bundle(r, input),
    ensures
        ({
            let dexes = input.dex_files@;
            let m = r.smali_classes@;
            &&& m.contains_key((aid, jni)) <==> exists|d: int, i: int| #[trigger]
                is_class(dexes, d, i, aid, jni)
            &&& forall|d: int, i: int| #[trigger]
                is_class(dexes, d, i, aid, jni) && (forall|e: int, j: int|
                    comes_before(d, i, e, j) ==> !#[trigger] is_class(dexes, e, j, aid, jni))
                    ==> m[(aid, jni)]@ == dexes[d].classes@[i].smali@
        }),
{
    let dexes = input.dex_files@;
    let m = r.smali_classes@;
    let (d, i) = lemma_texts(dexes, dexes.len() as int, aid, jni);
    assert(texts(m).contains_key((aid, jni)) == m.contains_key((aid, jni)));
    if d >= 0 {
        assert(is_class(dexes, d, i, aid, jni));
        assert forall|e: int, j: int| #[trigger]
            is_class(dexes, e, j, aid, jni) && (forall|f: int, k: int|
                comes_before(e, j, f, k) ==> !#[trigger] is_class(dexes, f, k, aid, jni)) implies
            m[(aid, jni)]@ == dexes[e].classes@[j].smali@ by {
            if comes_before(d, i, e, j) {
                assert(!is_class(dexes, e, j, aid, jni));
            } else if comes_before(e, j, d, i) {
                assert(!is_class(dexes, d, i, aid, jni));
            }
        }
    }
}

// ---- source files ----------------------------------------------------------

/// Class `i` of DEX file `d` is `jni`.
pub open spec fn is_named(dexes: Seq<DexFile>, d: int, i: int, jni: Seq<char>) -> bool {
    0 <= d < dexes.len() && 0 <= i < dexes[d].classes@.len() && dexes[d].classes@[i].jni@ == jni
}

proof fn lemma_dex_sources(
    m: Map<Seq<char>, Option<Seq<char>>>,
    dex: DexFile,
    n: int,
    jni: Seq<char>,
) -> (i: int)
    requires
        0 <= n <= dex.classes@.len(),
    ensures
        ({
            let now = with_sources(m, dex, n);
            ||| {
                &&& 0 <= i < n
                &&& dex.classes@[i].jni@ == jni
                &&& now.contains_key(jni)
                &&& now[jni] == source_name(dex.classes@[i].source)
                &&& forall|j: int| i < j < n ==> (#[trigger] dex.classes@[j]).jni@ != jni
            }
            ||| {
                &&& i == -1
                &&& forall|j: int| 0 <= j < n ==> (#[trigger] dex.classes@[j]).jni@ != jni
                &&& now.contains_key(jni) == m.contains_key(jni)
                &&& m.contains_key(jni) ==> now[jni] == m[jni]
            }
        }),
    decreases n,
{
    if n <= 0 {
        -1
    } else {
        let i = lemma_dex_sources(m, dex, n - 1, jni);
        if dex.classes@[n - 1].jni@ == jni {
            n - 1
        } else {
            i
        }
    }
}

proof fn lemma_sources(dexes: Seq<DexFile>, n: int, jni: Seq<char>) -> (r: (int, int))
    requires
        0 <= n <= dexes.len(),
    ensures
        ({
            let now = class_sources(dexes, n);
            ||| {
                &&& r.0 < n
                &&& is_named(dexes, r.0, r.1, jni)
                &&& now.contains_key(jni)
                &&& now[jni] == source_name(dexes[r.0].classes@[r.1].source)
                &&& forall|e: int, j: int|
                    e < n && comes_before(r.0, r.1, e, j) ==> !#[trigger] is_named(dexes, e, j, jni)
            }
            ||| {
                &&& r.0 == -1
                &&& !now.contains_key(jni)
                &&& forall|e: int, j: int| e < n ==> !#[trigger] is_named(dexes, e, j, jni)
            }
        }),
    decreases n,
{
    if n <= 0 {
        (-1, 0)
    } else {
        let (d, i) = lemma_sources(dexes, n - 1, jni);
        let dex = dexes[n - 1];
        let k = lemma_dex_sources(
            class_sources(dexes, n - 1),
            dex,
            dex.classes@.len() as int,
            jni,
        );
        if k >= 0 {
            assert forall|e: int, j: int| e < n && comes_before(n - 1, k, e, j) implies
                !#[trigger] is_named(dexes, e, j, jni) by {}
            (n - 1, k)
        } else {
            assert forall|j: int| !#[trigger] is_named(dexes, n - 1, j, jni) by {}
            (d, i)
        }
    }
}

/// The source file of a leaf is that of its class, where the class tells it; of
/// classes that share a name, that of the last. Other leaves have none.
pub proof fn law_source_files(dexes: Seq<DexFile>, k: LeafKind, d: int, i: int)
    requires
        k is SmaliClass ==> is_named(dexes, d, i, k->SmaliClass_class_jni@) && forall|
            e: int,
            j: int,
        |
            comes_before(d, i, e, j) ==> !#[trigger] is_named(
                dexes,
                e,
                j,
                k->SmaliClass_class_jni@,
            ),
    ensures
        ({
            let source = source_of(class_sources(dexes, dexes.len() as int), k);
            &&& !(k is SmaliClass) ==> source is None
            &&& k is SmaliClass ==> match dexes[d].classes@[i].source {
                Some(f) => source == Some(f@),
                None => source is None,
            }
        }),
{
    if k is SmaliClass {
        let jni = k->SmaliClass_class_jni@;
        let (e, j) = lemma_sources(dexes, dexes.len() as int, jni);
        if e >= 0 {
            if comes_before(d, i, e, j) {
                assert(!is_named(dexes, e, j, jni));
            } else if comes_before(e, j, d, i) {
                assert(!is_named(dexes, d, i, jni));
            }
        } else {
            assert(!is_named(dexes, d, i, jni));
        }
    }
}

/// A class that no DEX file holds has no source file.
pub proof fn law_unknown_classes_have_no_source(dexes: Seq<DexFile>, k: LeafKind)
    requires
        k is SmaliClass,
        forall|e: int, j: int| !#[trigger] is_named(dexes, e, j, k->SmaliClass_class_jni@),
    ensures
        source_of(class_sources(dexes, dexes.len() as int), k) is None,
{
    let (e, j) = lemma_sources(dexes, dexes.len() as int, k->SmaliClass_class_jni@);
    if e >= 0 {
        assert(!is_named(dexes, e, j, k->SmaliClass_class_jni@));
    }
}

/// Each leaf has the icon that is chosen for what it opens and for its source file.
pub proof fn law_icons<F: Fn(&LeafKind, Option<&str>) -> &'static str>(
    icon_of: F,
    kinds: Seq<LeafKind>,
    sources: Map<Seq<char>, Option<Seq<char>>>,
    icons: Seq<&'static str>,
    i: int,
)
    requires
        are_icons_of(icon_of, kinds, sources, icons),
        0 <= i < kinds.len(),
    ensures
        icons.len() == kinds.len(),
        exists|f: Option<&str>|
            {
                &&& #[trigger] call_ensures(icon_of, (&kinds[i], f), icons[i])
                &&& f is Some <==> source_of(sources, kinds[i]) is Some
                &&& f matches Some(x) ==> source_of(sources, kinds[i]) == Some(x@)
            },
{
    assert(is_icon_of(icon_of, kinds[i], source_of(sources, kinds[i]), icons[i]));
    let f = choose|file: Option<&str>|
        (match file {
            Some(f) => Some(f@),
            None => None,
        }) == source_of(sources, kinds[i]) && #[trigger] call_ensures(
            icon_of,
            (&kinds[i], file),
            icons[i],
        );
    assert(call_ensures(icon_of, (&kinds[i], f), icons[i]));
}

// ---- binaries --------------------------------------------------------------

/// The leaves of a binary with types: overview and code, then Objective-C, then
/// Swift; the tree numbers them in the same order.
pub proof fn law_artifact_leaves(
    aid: Seq<u8>,
    c: Container,
    name: Seq<char>,
    origin: Seq<char>,
    type_origin: Seq<char>,
    first: int,
)
    ensures
        ({
            let native = native_rows(
                aid,
                c,
                origin,
                tagged(name, c.architecture) + " (overview)"@,
            );
            let objc = item_rows(aid, false, objc_of(c), type_origin);
            let swift = item_rows(aid, true, swift_of(c), type_origin);
            &&& artifact_rows(aid, c, name, origin, type_origin) == native + objc + swift
            &&& artifact_nodes(c, first) == native_nodes(c, first) + item_group(
                "Objective-C"@,
                objc_of(c),
                first + native.len(),
            ) + item_group("Swift"@, swift_of(c), first + native.len() + objc.len())
        }),
{
    let overview = tagged(name, c.architecture) + " (overview)"@;
    lemma_native_rows_len(aid, c, origin, overview);
}

/// The leaves of an iOS archive: its property list, its main executable where it
/// could be parsed, then each framework that could be.
pub proof fn law_ipa_leaves(r: LoadedBundle, input: IpaInput, n: int)
    requires
        is_ipa_bundle(r, input),
        0 <= n < input.frameworks@.len(),
    ensures
        ({
            let rows = r.leaves();
            let at = ipa_frameworks(input, n).rows.len() as int;
            &&& rows.len() > 0
            &&& rows[0].body == ""@
            &&& rows[0].origin == "plist"@
            &&& rows[0].label == "Info.plist"@
            &&& rows[0].kind == (LeafKindView::Plist { artifact: blake3_digest(input.info_bytes@) })
            &&& input.main_executable matches Some(b) ==> {
                let main = artifact_rows(
                    blake3_digest(b.bytes@),
                    b.container,
                    match input.executable {
                        Some(x) => x@,
                        None => "main"@,
                    },
                    "main"@,
                    "main"@,
                );
                rows.len() >= 1 + main.len() && rows.subrange(1, 1 + main.len() as int) == main
            }
            &&& input.frameworks@[n].binary matches Some(b) ==> {
                let part = artifact_rows(
                    blake3_digest(b.bytes@),
                    b.container,
                    input.frameworks@[n].name@,
                    "Frameworks"@,
                    "Frameworks"@,
                );
                rows.len() >= at + part.len() && rows.subrange(at, at + part.len() as int) == part
            }
        }),
{
    let all = input.frameworks@.len() as int;
    lemma_ipa_prefix(input, 0, all);
    lemma_ipa_prefix(input, n + 1, all);
    let rows = r.leaves();
    let at = ipa_frameworks(input, n).rows.len() as int;
    let main = ipa_main(input).rows;
    assert(rows.subrange(0, main.len() as int) == main);
    assert(rows[0] == main[0]) by {
        assert(rows.subrange(0, main.len() as int)[0] == rows[0]);
    }
    if let Some(b) = input.main_executable {
        let part = artifact_rows(
            blake3_digest(b.bytes@),
            b.container,
            main_name(input.executable),
            "main"@,
            "main"@,
        );
        assert(main.len() == 1 + part.len());
        assert(rows.subrange(1, 1 + part.len() as int) =~= rows.subrange(
            0,
            main.len() as int,
        ).subrange(1, 1 + part.len() as int));
        assert(main.subrange(1, 1 + part.len() as int) =~= part);
    }
    if let Some(b) = input.frameworks@[n].binary {
        let part = artifact_rows(
            blake3_digest(b.bytes@),
            b.container,
            input.frameworks@[n].name@,
            "Frameworks"@,
            "Frameworks"@,
        );
        let upto = ipa_frameworks(input, n + 1).rows;
        assert(upto.len() == at + part.len());
        assert(rows.subrange(at, at + part.len() as int) =~= rows.subrange(
            0,
            upto.len() as int,
        ).subrange(at, at + part.len() as int));
        assert(upto.subrange(at, at + part.len() as int) =~= part);
    }
}

proof fn lemma_ipa_prefix(input: IpaInput, n: int, m: int)
    requires
        0 <= n <= m <= input.frameworks@.len(),
    ensures
        ({
            let a = ipa_frameworks(input, n).rows;
            let b = ipa_frameworks(input, m).rows;
            a.len() <= b.len() && b.subrange(0, a.len() as int) == a
        }),
    decreases m - n,
{
    let a = ipa_frameworks(input, n).rows;
    let b = ipa_frameworks(input, m).rows;
    if n < m {
        lemma_ipa_prefix(input, n, m - 1);
        let mid = ipa_frameworks(input, m - 1).rows;
        assert(b.subrange(0, a.len() as int) =~= mid.subrange(0, a.len() as int));
    } else {
        assert(b.subrange(0, a.len() as int) =~= a);
    }
}

// ---- trees lead to leaves --------------------------------------------------

/// A tree leaf leads to the leaf that it names: one of that title, or an overview.
pub open spec fn leads_home(label: Seq<char>, id: LeafId, rows: Seq<LeafRowView>) -> bool {
    &&& id.0 < rows.len()
    &&& rows[id.0 as int].label == label || (label == "Overview"@ && rows[id.0 as int].kind is SectionMap)
}

/// All leaves at or below a node lead home.
pub open spec fn home(n: NodeView, rows: Seq<LeafRowView>) -> bool
    decreases n, 0int,
{
    match n {
        NodeView::Group { children, .. } => homes(children, children.len() as int, rows),
        NodeView::Leaf { label, leaf_id } => leads_home(label, leaf_id, rows),
    }
}

/// All leaves at or below the first `k` nodes lead home.
pub open spec fn homes(nodes: Seq<NodeView>, k: int, rows: Seq<LeafRowView>) -> bool
    decreases nodes, k,
    when k <= nodes.len()
{
    k <= 0 || (homes(nodes, k - 1, rows) && home(nodes[k - 1], rows))
}

proof fn lemma_homes(nodes: Seq<NodeView>, k: int, rows: Seq<LeafRowView>)
    requires
        0 <= k <= nodes.len(),
    ensures
        homes(nodes, k, rows) <==> forall|i: int| 0 <= i < k ==> home(#[trigger] nodes[i], rows),
    decreases k,
{
    if k > 0 {
        lemma_homes(nodes, k - 1, rows);
    }
}

proof fn lemma_homes_concat(a: Seq<NodeView>, b: Seq<NodeView>, rows: Seq<LeafRowView>)
    requires
        homes(a, a.len() as int, rows),
        homes(b, b.len() as int, rows),
    ensures
        homes(a + b, (a + b).len() as int, rows),
{
    lemma_homes(a, a.len() as int, rows);
    lemma_homes(b, b.len() as int, rows);
    assert forall|i: int| 0 <= i < (a + b).len() implies home(#[trigger] (a + b)[i], rows) by {
        if i < a.len() {
            assert((a + b)[i] == a[i]);
        } else {
            assert((a + b)[i] == b[i - a.len()]);
        }
    }
    lemma_homes(a + b, (a + b).len() as int, rows);
}

proof fn lemma_native_home(
    aid: Seq<u8>,
    c: Container,
    origin: Seq<char>,
    overview: Seq<char>,
    first: int,
    rows: Seq<LeafRowView>,
)
    requires
        0 <= first,
        rows.len() <= usize::MAX,
        ({
            let part = native_rows(aid, c, origin, overview);
            first + part.len() <= rows.len() && rows.subrange(first, first + part.len()) == part
        }),
    ensures
        homes(native_nodes(c, first), native_nodes(c, first).len() as int, rows),
{
    let from = law_native_leaves(aid, c, origin, overview, first);
    let part = native_rows(aid, c, origin, overview);
    let nodes = native_nodes(c, first);
    assert forall|i: int| 0 <= i < nodes.len() implies home(#[trigger] nodes[i], rows) by {
        assert(rows.subrange(first, first + part.len())[i] == rows[first + i]);
        if i > 0 {
            let q = from[i - 1];
            assert(nodes[i - 1 + 1] == nodes[i]);
        }
    }
    lemma_homes(nodes, nodes.len() as int, rows);
}

proof fn lemma_group_home(
    aid: Seq<u8>,
    swift: bool,
    title: Seq<char>,
    items: Seq<ItemView>,
    origin: Seq<char>,
    first: int,
    rows: Seq<LeafRowView>,
)
    requires
        0 <= first,
        rows.len() <= usize::MAX,
        first + items.len() <= rows.len(),
        rows.subrange(first, first + items.len()) == item_rows(aid, swift, items, origin),
    ensures
        homes(
            item_group(title, items, first),
            item_group(title, items, first).len() as int,
            rows,
        ),
{
    let nodes = item_nodes(items, first);
    assert forall|i: int| 0 <= i < nodes.len() implies home(#[trigger] nodes[i], rows) by {
        law_type_leaves(aid, swift, items, origin, first, i);
        assert(rows.subrange(first, first + items.len())[i] == rows[first + i]);
    }
    lemma_homes(nodes, nodes.len() as int, rows);
    let group = item_group(title, items, first);
    if items.len() > 0 {
        assert(group[0] == (NodeView::Group { label: title, children: nodes }));
        assert(home(group[0], rows));
        assert(homes(group, 0, rows));
        assert(homes(group, 1, rows));
    } else {
        assert(homes(group, 0, rows));
    }
}

proof fn lemma_artifact_home(
    aid: Seq<u8>,
    c: Container,
    name: Seq<char>,
    origin: Seq<char>,
    type_origin: Seq<char>,
    first: int,
    rows: Seq<LeafRowView>,
)
    requires
        0 <= first,
        rows.len() <= usize::MAX,
        ({
            let part = artifact_rows(aid, c, name, origin, type_origin);
            first + part.len() <= rows.len() && rows.subrange(first, first + part.len()) == part
        }),
    ensures
        homes(artifact_nodes(c, first), artifact_nodes(c, first).len() as int, rows),
{
    let overview = tagged(name, c.architecture) + " (overview)"@;
    law_artifact_leaves(aid, c, name, origin, type_origin, first);
    let part = artifact_rows(aid, c, name, origin, type_origin);
    let native = native_rows(aid, c, origin, overview);
    let objc = item_rows(aid, false, objc_of(c), type_origin);
    let swift = item_rows(aid, true, swift_of(c), type_origin);
    let a = native.len() as int;
    let b = objc.len() as int;
    let s = swift.len() as int;
    assert(part == native + objc + swift);
    let here = rows.subrange(first, first + part.len());
    assert(rows.subrange(first, first + a) =~= here.subrange(0, a));
    assert(here.subrange(0, a) =~= native);
    assert(rows.subrange(first + a, first + a + b) =~= here.subrange(a, a + b));
    assert(here.subrange(a, a + b) =~= objc);
    assert(rows.subrange(first + a + b, first + a + b + s) =~= here.subrange(a + b, a + b + s));
    assert(here.subrange(a + b, a + b + s) =~= swift);
    lemma_native_home(aid, c, origin, overview, first, rows);
    lemma_group_home(aid, false, "Objective-C"@, objc_of(c), type_origin, first + a, rows);
    lemma_group_home(aid, true, "Swift"@, swift_of(c), type_origin, first + a + b, rows);
    let x = native_nodes(c, first);
    let y = item_group("Objective-C"@, objc_of(c), first + a);
    let z = item_group("Swift"@, swift_of(c), first + a + b);
    lemma_homes_concat(x, y, rows);
    lemma_homes_concat(x + y, z, rows);
}

/// Every leaf in the tree of a standalone binary leads to the leaf it names.
pub proof fn law_binary_tree_leads_home(
    aid: Seq<u8>,
    c: Container,
    name: Seq<char>,
    origin: Seq<char>,
    type_origin: Seq<char>,
)
    requires
        artifact_rows(aid, c, name, origin, type_origin).len() <= usize::MAX,
    ensures
        homes(
            artifact_nodes(c, 0),
            artifact_nodes(c, 0).len() as int,
            artifact_rows(aid, c, name, origin, type_origin),
        ),
{
    let rows = artifact_rows(aid, c, name, origin, type_origin);
    assert(rows.subrange(0, 0 + rows.len() as int) =~= rows);
    lemma_artifact_home(aid, c, name, origin, type_origin, 0, rows);
}

proof fn lemma_frameworks_home(r: LoadedBundle, input: IpaInput, n: int)
    requires
        is_ipa_bundle(r, input),
        r.leaves().len() <= usize::MAX,
        0 <= n <= input.frameworks@.len(),
    ensures
        homes(framework_nodes(input, n), framework_nodes(input, n).len() as int, r.leaves()),
    decreases n,
{
    if n > 0 {
        lemma_frameworks_home(r, input, n - 1);
        law_ipa_leaves(r, input, n - 1);
        let before = framework_nodes(input, n - 1);
        if let Some(b) = input.frameworks@[n - 1].binary {
            let first = ipa_frameworks(input, n - 1).rows.len() as int;
            let name = input.frameworks@[n - 1].name@;
            lemma_artifact_home(
                blake3_digest(b.bytes@),
                b.container,
                name,
                "Frameworks"@,
                "Frameworks"@,
                first,
                r.leaves(),
            );
            let group = seq![artifact_group(name, b.container, first)];
            assert(home(group[0], r.leaves()));
            assert(homes(group, 0, r.leaves()));
            assert(homes(group, 1, r.leaves()));
            lemma_homes_concat(before, group, r.leaves());
            assert(before + group =~= framework_nodes(input, n));
        }
    }
}

/// Every leaf in the tree of an iOS archive leads to the leaf it names.
pub proof fn law_ipa_tree_leads_home(r: LoadedBundle, input: IpaInput)
    requires
        is_ipa_bundle(r, input),
    ensures
        homes(r.tree@, r.tree@.len() as int, r.leaves()),
{
    let rows = r.leaves();
    assert(r.kinds.len() == r.kinds@.len());
    let n = input.frameworks@.len() as int;
    lemma_frameworks_home(r, input, n);
    lemma_ipa_prefix(input, 0, n);
    let main = ipa_main(input).rows;
    assert(rows.subrange(0, main.len() as int) == main);
    assert(rows.subrange(0, main.len() as int)[0] == rows[0]);
    let plist = seq![plist_node()];
    assert(rows[0] == plist_row(input.info_bytes@));
    assert(home(plist[0], rows));
    assert(homes(plist, 0, rows));
    assert(homes(plist, 1, rows));
    let second = match input.main_executable {
        Some(b) => seq![artifact_group(main_name(input.executable), b.container, 1)],
        None => Seq::empty(),
    };
    if let Some(b) = input.main_executable {
        let part = artifact_rows(
            blake3_digest(b.bytes@),
            b.container,
            main_name(input.executable),
            "main"@,
            "main"@,
        );
        assert(main.len() == 1 + part.len());
        assert(rows.subrange(1, 1 + part.len() as int) =~= rows.subrange(
            0,
            main.len() as int,
        ).subrange(1, 1 + part.len() as int));
        assert(main.subrange(1, 1 + part.len() as int) =~= part);
        lemma_artifact_home(
            blake3_digest(b.bytes@),
            b.container,
            main_name(input.executable),
            "main"@,
            "main"@,
            1,
            rows,
        );
        assert(home(second[0], rows));
        assert(homes(second, 0, rows));
        assert(homes(second, 1, rows));
    } else {
        assert(homes(second, 0, rows));
    }
    lemma_homes_concat(plist, second, rows);
    let inner = framework_nodes(input, n);
    let third = if inner.len() > 0 {
        seq![NodeView::Group { label: "Frameworks"@, children: inner }]
    } else {
        Seq::empty()
    };
    if inner.len() > 0 {
        assert(home(third[0], rows));
        assert(homes(third, 0, rows));
        assert(homes(third, 1, rows));
    } else {
        assert(homes(third, 0, rows));
    }
    lemma_homes_concat(plist + second, third, rows);
    assert(r.tree@ =~= plist + second + third);
}

// ---- the tree of an Android archive ----------------------------------------

/// Entries lead to leaves titled by the last part of their name.
spec fn entries_home(entries: Seq<EntryView>, rows: Seq<LeafRowView>) -> bool {
    forall|i: int|
        0 <= i < entries.len() && (#[trigger] entries[i]).parts.len() > 0 ==> leads_home(
            entries[i].parts.last(),
            entries[i].id,
            rows,
        )
}

proof fn lemma_inside_home(entries: Seq<EntryView>, name: Seq<char>, rows: Seq<LeafRowView>)
    requires
        entries_home(entries, rows),
    ensures
        entries_home(inside(entries, name), rows),
    decreases entries.len(),
{
    if entries.len() > 0 {
        let rest = entries.drop_last();
        assert forall|i: int| 0 <= i < rest.len() && (#[trigger] rest[i]).parts.len() > 0 implies
            leads_home(rest[i].parts.last(), rest[i].id, rows) by {
            assert(rest[i] == entries[i]);
        }
        lemma_inside_home(rest, name, rows);
        let last = entries[entries.len() - 1];
        let now = inside(entries, name);
        if last.parts.len() >= 2 && last.parts[0] == name {
            let before = inside(rest, name);
            assert(last.parts.skip(1).last() == last.parts.last());
            assert forall|i: int| 0 <= i < now.len() && (#[trigger] now[i]).parts.len() > 0 implies
                leads_home(now[i].parts.last(), now[i].id, rows) by {
                if i < before.len() {
                    assert(now[i] == before[i]);
                }
            }
        }
    }
}

proof fn lemma_class_leaves_home(entries: Seq<EntryView>, rows: Seq<LeafRowView>)
    requires
        entries_home(entries, rows),
    ensures
        homes(class_leaves(entries), class_leaves(entries).len() as int, rows),
    decreases entries.len(),
{
    let now = class_leaves(entries);
    if entries.len() > 0 {
        let rest = entries.drop_last();
        assert forall|i: int| 0 <= i < rest.len() && (#[trigger] rest[i]).parts.len() > 0 implies
            leads_home(rest[i].parts.last(), rest[i].id, rows) by {
            assert(rest[i] == entries[i]);
        }
        lemma_class_leaves_home(rest, rows);
        let last = entries[entries.len() - 1];
        if last.parts.len() == 1 {
            let one = seq![NodeView::Leaf { label: last.parts[0], leaf_id: last.id }];
            assert(last.parts.last() == last.parts[0]);
            assert(home(one[0], rows));
            assert(homes(one, 0, rows));
            assert(homes(one, 1, rows));
            lemma_homes_concat(class_leaves(rest), one, rows);
            assert(now =~= class_leaves(rest) + one);
        }
    }
}

proof fn lemma_collapsed_home(label: Seq<char>, children: Seq<NodeView>, rows: Seq<LeafRowView>)
    requires
        homes(children, children.len() as int, rows),
    ensures
        home(collapsed(label, children), rows),
    decreases children,
{
    if children.len() == 1 {
        match children[0] {
            NodeView::Group { label: inner, children: kids } => {
                lemma_homes(children, 1, rows);
                assert(home(children[0], rows));
                lemma_collapsed_home(label + "."@ + inner, kids, rows);
            },
            NodeView::Leaf { .. } => {},
        }
    }
}

proof fn lemma_package_groups_home(
    entries: Seq<EntryView>,
    names: Seq<Seq<char>>,
    k: int,
    rows: Seq<LeafRowView>,
)
    requires
        entries_home(entries, rows),
        0 <= k <= names.len(),
    ensures
        homes(
            package_groups(entries, names, k),
            package_groups(entries, names, k).len() as int,
            rows,
        ),
    decreases weight(entries), 0int, k,
{
    if k > 0 {
        lemma_package_groups_home(entries, names, k - 1, rows);
        let before = package_groups(entries, names, k - 1);
        let sub = inside(entries, names[k - 1]);
        if weight(sub) < weight(entries) && package_nodes(sub).len() > 0 {
            lemma_inside_home(entries, names[k - 1], rows);
            lemma_package_home(sub, rows);
            lemma_collapsed_home(names[k - 1], package_nodes(sub), rows);
            let one = seq![collapsed(names[k - 1], package_nodes(sub))];
            assert(home(one[0], rows));
            assert(homes(one, 0, rows));
            assert(homes(one, 1, rows));
            lemma_homes_concat(before, one, rows);
            assert(package_groups(entries, names, k) =~= before + one);
        }
    }
}

proof fn lemma_package_home(entries: Seq<EntryView>, rows: Seq<LeafRowView>)
    requires
        entries_home(entries, rows),
    ensures
        homes(package_nodes(entries), package_nodes(entries).len() as int, rows),
    decreases weight(entries), 1int, 0int,
{
    let names = package_names(entries);
    lemma_package_groups_home(entries, names, names.len() as int, rows);
    lemma_class_leaves_home(entries, rows);
    lemma_homes_concat(
        package_groups(entries, names, names.len() as int),
        class_leaves(entries),
        rows,
    );
}

/// Class `i` of DEX file `d` has its leaf in its place.
spec fn class_stands(
    rows: Seq<LeafRowView>,
    first: int,
    dexes: Seq<DexFile>,
    d: int,
    i: int,
) -> bool {
    opens_class(rows[first + classes_before(dexes, d) + i], dexes[d], i)
}

proof fn lemma_class_entries(dexes: Seq<DexFile>, first: int, n: int, rows: Seq<LeafRowView>)
    requires
        0 <= first,
        0 <= n <= dexes.len(),
        rows.len() <= usize::MAX,
        first + classes_before(dexes, dexes.len() as int) <= rows.len(),
        forall|d: int, i: int|
            0 <= d < dexes.len() && 0 <= i < dexes[d].classes@.len() ==> #[trigger] class_stands(
                rows,
                first,
                dexes,
                d,
                i,
            ),
    ensures
        entries_home(class_entries(dexes, first, n), rows),
    decreases n,
{
    if n > 0 {
        lemma_class_entries(dexes, first, n - 1, rows);
        lemma_class_rows(dexes, n - 1, 0, 0);
        lemma_class_total(dexes, n, dexes.len() as int);
        let before = class_entries(dexes, first, n - 1);
        let start = first + class_rows(dexes, n - 1).len();
        let more = dex_entries(dexes[n - 1], start, dexes[n - 1].classes@.len() as int);
        let all = class_entries(dexes, first, n);
        assert(all =~= before + more);
        assert forall|i: int| 0 <= i < all.len() && (#[trigger] all[i]).parts.len() > 0 implies
            leads_home(all[i].parts.last(), all[i].id, rows) by {
            if i < before.len() {
                assert(all[i] == before[i]);
            } else {
                let q = i - before.len();
                assert(all[i] == more[q]);
                assert(class_stands(rows, first, dexes, n - 1, q));
            }
        }
    }
}

proof fn lemma_class_total(dexes: Seq<DexFile>, n: int, m: int)
    requires
        0 <= n <= m <= dexes.len(),
    ensures
        0 <= classes_before(dexes, n) <= classes_before(dexes, m),
    decreases m,
{
    if n < m {
        lemma_class_total(dexes, n, m - 1);
    } else if n > 0 {
        lemma_class_total(dexes, n - 1, m - 1);
    }
}

proof fn lemma_abi_home(
    r: LoadedBundle,
    input: ApkInput,
    base: int,
    abi: Seq<char>,
    n: int,
)
    requires
        is_apk_bundle(r, input),
        r.leaves().len() <= usize::MAX,
        base == leaves_before_classes(input) + classes_before(
            input.dex_files@,
            input.dex_files@.len() as int,
        ),
        0 <= n <= input.native_libs@.len(),
    ensures
        homes(
            abi_nodes(input.native_libs@, base, abi, n),
            abi_nodes(input.native_libs@, base, abi, n).len() as int,
            r.leaves(),
        ),
    decreases n,
{
    let libs = input.native_libs@;
    let rows = r.leaves();
    if n > 0 {
        lemma_abi_home(r, input, base, abi, n - 1);
        let before = abi_nodes(libs, base, abi, n - 1);
        if libs[n - 1].abi@ == abi {
            let l = libs[n - 1];
            let first = base + libs_rows(libs, n - 1).len();
            let part = lib_rows(l);
            lemma_class_total(input.dex_files@, 0, input.dex_files@.len() as int);
            assert forall|k: int| 0 <= k < part.len() implies first + k < rows.len() && rows[first
                + k] == #[trigger] part[k] by {
                law_apk_library_leaves(r, input, n - 1, k);
            }
            assert(part.len() > 0);
            assert(part[part.len() - 1] == part[part.len() - 1]);
            assert(first + (part.len() - 1) < rows.len());
            assert(rows.subrange(first, first + part.len()) =~= part);
            lemma_native_home(
                lib_id(l),
                l.binary.container,
                "lib/"@ + l.abi@,
                l.name@ + " (overview)"@,
                first,
                rows,
            );
            let one = seq![lib_node(l, first)];
            assert(home(one[0], rows));
            assert(homes(one, 0, rows));
            assert(homes(one, 1, rows));
            lemma_homes_concat(before, one, rows);
            assert(abi_nodes(libs, base, abi, n) =~= before + one);
        }
    }
}

/// Every leaf in the tree of an Android archive leads to the leaf it names.
#[verifier::rlimit(40)]
pub proof fn law_apk_tree_leads_home(r: LoadedBundle, input: ApkInput)
    requires
        is_apk_bundle(r, input),
    ensures
        homes(r.tree@, r.tree@.len() as int, r.leaves()),
{
    let rows = r.leaves();
    assert(r.kinds.len() == r.kinds@.len());
    let dexes = input.dex_files@;
    let libs = input.native_libs@;
    let m = leaves_before_classes(input);
    let total = classes_before(dexes, dexes.len() as int);
    law_apk_leaves(r, input, 0, 0);
    lemma_class_rows(dexes, dexes.len() as int, 0, 0);
    assert(manifest_leaf(input).len() == m);
    let a = manifest_node(input);
    if m == 1 {
        assert(home(a[0], rows));
        assert(homes(a, 0, rows));
        assert(homes(a, 1, rows));
    } else {
        assert(homes(a, 0, rows));
    }
    assert forall|d: int, i: int| 0 <= d < dexes.len() && 0 <= i < dexes[d].classes@.len() implies
        #[trigger] class_stands(rows, m, dexes, d, i) by {
        law_apk_leaves(r, input, d, i);
    }
    lemma_class_entries(dexes, m, dexes.len() as int, rows);
    let entries = class_entries(dexes, m, dexes.len() as int);
    lemma_package_home(entries, rows);
    let b = if dexes.len() > 0 {
        seq![NodeView::Group { label: "Classes"@, children: package_nodes(entries) }]
    } else {
        Seq::empty()
    };
    if dexes.len() > 0 {
        assert(home(b[0], rows));
        assert(homes(b, 0, rows));
        assert(homes(b, 1, rows));
    } else {
        assert(homes(b, 0, rows));
    }
    let base = m + total;
    let names = sorted_list::<String>(abis(libs));
    let groups = abi_groups(libs, base, names);
    assert forall|i: int| 0 <= i < groups.len() implies home(#[trigger] groups[i], rows) by {
        lemma_abi_home(r, input, base, names[i], libs.len() as int);
    }
    lemma_homes(groups, groups.len() as int, rows);
    let c = if libs.len() > 0 {
        seq![NodeView::Group { label: "lib"@, children: groups }]
    } else {
        Seq::empty()
    };
    if libs.len() > 0 {
        assert(home(c[0], rows));
        assert(homes(c, 0, rows));
        assert(homes(c, 1, rows));
    } else {
        assert(homes(c, 0, rows));
    }
    lemma_homes_concat(a, b, rows);
    lemma_homes_concat(a + b, c, rows);
    assert(r.tree@ =~= a + b + c);
}

// ---- shape of the trees ----------------------------------------------------

/// One group per ABI of the libraries, in ascending order.
pub open spec fn groups_by_abi(nodes: Seq<NodeView>, libs: Seq<NativeLib>) -> bool {
    &&& forall|i: int| 0 <= i < nodes.len() ==> (#[trigger] nodes[i]) is Group
    &&& forall|i: int, j: int|
        0 <= i < j < nodes.len() ==> text_before(
            (#[trigger] nodes[i])->Group_label,
            (#[trigger] nodes[j])->Group_label,
        )
    &&& forall|x: int|
        0 <= x < libs.len() ==> exists|i: int|
            0 <= i < nodes.len() && (#[trigger] nodes[i])->Group_label == (#[trigger] libs[x]).abi@
    &&& forall|i: int|
        0 <= i < nodes.len() ==> exists|x: int|
            0 <= x < libs.len() && (#[trigger] nodes[i])->Group_label == (#[trigger] libs[x]).abi@
}

proof fn lemma_groups_by_abi(libs: Seq<NativeLib>, base: int)
    ensures
        groups_by_abi(abi_groups(libs, base, sorted_list::<String>(abis(libs))), libs),
{
    let names = sorted_list::<String>(abis(libs));
    lemma_sorted_list_exists::<String>(abis(libs));
    let groups = abi_groups(libs, base, names);
    assert forall|i: int, j: int| 0 <= i < j < groups.len() implies text_before(
        (#[trigger] groups[i])->Group_label,
        (#[trigger] groups[j])->Group_label,
    ) by {
        assert(<String as crate::order::Rank>::before(names[i], names[j]));
    }
    assert forall|x: int| 0 <= x < libs.len() implies exists|i: int|
        0 <= i < groups.len() && (#[trigger] groups[i])->Group_label == (#[trigger] libs[x]).abi@ by {
        assert(abis(libs)[x] == libs[x].abi@);
        assert(abis(libs).contains(libs[x].abi@));
        assert(names.contains(libs[x].abi@));
        let i = choose|i: int| 0 <= i < names.len() && names[i] == libs[x].abi@;
        assert(groups[i]->Group_label == libs[x].abi@);
    }
    assert forall|i: int| 0 <= i < groups.len() implies exists|x: int|
        0 <= x < libs.len() && (#[trigger] groups[i])->Group_label == (#[trigger] libs[x]).abi@ by {
        assert(names.contains(names[i]));
        assert(abis(libs).contains(names[i]));
        let x = choose|x: int| 0 <= x < abis(libs).len() && abis(libs)[x] == names[i];
        assert(libs[x].abi@ == groups[i]->Group_label);
    }
}

/// The tree of an Android archive: the manifest, a group of classes where there are
/// DEX files, and a group of libraries where there are any, with one group per ABI in
/// ascending order.
pub proof fn law_apk_tree_shape(input: ApkInput, k: int, l: int)
    requires
        k == if input.dex_files@.len() > 0 {
            1int
        } else {
            0int
        },
        l == if input.native_libs@.len() > 0 {
            1int
        } else {
            0int
        },
    ensures
        ({
            let t = apk_tree(input);
            let m = leaves_before_classes(input);
            &&& t.len() == m + k + l
            &&& m == 1 ==> t[0] == (NodeView::Leaf {
                label: "AndroidManifest.xml"@,
                leaf_id: LeafId(0),
            })
            &&& k == 1 ==> t[m] is Group && t[m]->Group_label == "Classes"@
            &&& l == 1 ==> t[m + k] is Group && t[m + k]->Group_label == "lib"@ && groups_by_abi(
                t[m + k]->children,
                input.native_libs@,
            )
        }),
{
    let libs = input.native_libs@;
    let base = manifest_leaf(input).len() + class_rows(
        input.dex_files@,
        input.dex_files@.len() as int,
    ).len();
    lemma_groups_by_abi(libs, base as int);
    let t = apk_tree(input);
    if libs.len() > 0 {
        assert(t[t.len() - 1]->children == abi_groups(
            libs,
            base as int,
            sorted_list::<String>(abis(libs)),
        ));
    }
}

/// The libraries of an ABI stand in their own order, each in a group that is titled by
/// its name.
pub proof fn law_libraries_of_an_abi(libs: Seq<NativeLib>, base: int, abi: Seq<char>, n: int) -> (from:
    Seq<int>)
    requires
        0 <= n <= libs.len(),
    ensures
        abi_nodes(libs, base, abi, n).len() == from.len(),
        forall|i: int|
            0 <= i < from.len() ==> {
                &&& 0 <= #[trigger] from[i] < n
                &&& libs[from[i]].abi@ == abi
                &&& abi_nodes(libs, base, abi, n)[i] is Group
                &&& abi_nodes(libs, base, abi, n)[i]->Group_label == tagged(
                    libs[from[i]].name@,
                    libs[from[i]].binary.container.architecture,
                )
                &&& abi_nodes(libs, base, abi, n)[i]->children == native_nodes(
                    libs[from[i]].binary.container,
                    base + libs_rows(libs, from[i]).len(),
                )
            },
        forall|i: int, j: int| 0 <= i < j < from.len() ==> #[trigger] from[i] < #[trigger] from[j],
        forall|x: int| 0 <= x < n && (#[trigger] libs[x]).abi@ == abi ==> from.contains(x),
    decreases n,
{
    if n <= 0 {
        Seq::empty()
    } else {
        let before = law_libraries_of_an_abi(libs, base, abi, n - 1);
        if libs[n - 1].abi@ == abi {
            let from = before.push(n - 1);
            let nodes = abi_nodes(libs, base, abi, n);
            let old_nodes = abi_nodes(libs, base, abi, n - 1);
            assert(from[before.len() as int] == n - 1);
            assert forall|i: int| 0 <= i < from.len() implies {
                &&& 0 <= #[trigger] from[i] < n
                &&& libs[from[i]].abi@ == abi
                &&& nodes[i] is Group
                &&& nodes[i]->Group_label == tagged(
                    libs[from[i]].name@,
                    libs[from[i]].binary.container.architecture,
                )
                &&& nodes[i]->children == native_nodes(
                    libs[from[i]].binary.container,
                    base + libs_rows(libs, from[i]).len(),
                )
            } by {
                if i < before.len() {
                    assert(from[i] == before[i]);
                    assert(nodes[i] == old_nodes[i]);
                }
            }
            assert forall|i: int, j: int| 0 <= i < j < from.len() implies #[trigger] from[i]
                < #[trigger] from[j] by {
                assert(from[i] == before[i]);
                if j < before.len() {
                    assert(from[j] == before[j]);
                }
            }
            assert forall|x: int| 0 <= x < n && (#[trigger] libs[x]).abi@ == abi implies
                from.contains(x) by {
                if x < n - 1 {
                    let i = choose|i: int| 0 <= i < before.len() && before[i] == x;
                    assert(from[i] == x);
                }
            }
            from
        } else {
            before
        }
    }
}

/// The tree of an iOS archive: the property list, the main executable, and a group of
/// frameworks where any could be parsed.
pub proof fn law_ipa_tree_shape(input: IpaInput)
    ensures
        ({
            let t = ipa_tree(input);
            let k = if input.main_executable is Some {
                1int
            } else {
                0int
            };
            let any = exists|i: int|
                0 <= i < input.frameworks@.len() && (#[trigger] input.frameworks@[i]).binary is Some;
            &&& t.len() == 1 + k + if any {
                1int
            } else {
                0int
            }
            &&& t[0] == (NodeView::Leaf { label: "Info.plist"@, leaf_id: LeafId(0) })
            &&& input.main_executable matches Some(b) ==> {
                &&& t[1] is Group
                &&& t[1]->Group_label == tagged(
                    match input.executable {
                        Some(x) => x@,
                        None => "main"@,
                    },
                    b.container.architecture,
                )
                &&& t[1]->children == artifact_nodes(b.container, 1)
            }
            &&& any ==> t[1 + k] is Group && t[1 + k]->Group_label == "Frameworks"@
        }),
{
    let n = input.frameworks@.len() as int;
    lemma_any_framework(input, n);
}

proof fn lemma_any_framework(input: IpaInput, n: int)
    requires
        0 <= n <= input.frameworks@.len(),
    ensures
        framework_nodes(input, n).len() > 0 <==> exists|i: int|
            0 <= i < n && (#[trigger] input.frameworks@[i]).binary is Some,
    decreases n,
{
    if n > 0 {
        lemma_any_framework(input, n - 1);
    }
}

// ---- identities and labels -------------------------------------------------

/// The artifacts of an Android archive are its DEX files, then its libraries.
pub proof fn law_apk_ids(dexes: Seq<DexFile>, libs: Seq<NativeLib>, i: int)
    ensures
        apk_ids(dexes, libs).len() == dexes.len() + libs.len(),
        0 <= i < dexes.len() ==> apk_ids(dexes, libs)[i] == blake3_digest(dexes[i].bytes@),
        0 <= i < libs.len() ==> apk_ids(dexes, libs)[dexes.len() + i] == blake3_digest(
            libs[i].binary.bytes@,
        ),
{
}

/// The artifacts of an iOS archive are its property list, its main executable, and
/// its frameworks.
pub proof fn law_ipa_ids(input: IpaInput, n: int)
    requires
        0 <= n < input.frameworks@.len(),
    ensures
        ipa_main(input).ids == (match input.main_executable {
            Some(b) => seq![blake3_digest(input.info_bytes@), blake3_digest(b.bytes@)],
            None => seq![blake3_digest(input.info_bytes@)],
        }),
        ipa_frameworks(input, 0) == ipa_main(input),
        ipa_frameworks(input, n + 1).ids == (match input.frameworks@[n].binary {
            Some(b) => ipa_frameworks(input, n).ids.push(blake3_digest(b.bytes@)),
            None => ipa_frameworks(input, n).ids,
        }),
{
    assert(seq![blake3_digest(input.info_bytes@)].len() == 1);
    match input.main_executable {
        Some(b) => {
            assert(seq![blake3_digest(input.info_bytes@)].push(blake3_digest(b.bytes@)) =~= seq![
                blake3_digest(input.info_bytes@),
                blake3_digest(b.bytes@),
            ]);
        },
        None => {},
    }
}

/// The bytes that identify a bundle are those of its artifacts, one after the other.
pub proof fn law_joined_ids(ids: Seq<ArtifactId>, n: int)
    requires
        0 <= n < ids.len(),
    ensures
        joined_ids(ids, 0).len() == 0,
        joined_ids(ids, n + 1) == joined_ids(ids, n) + ids[n]@,
{
}

/// Archives are told apart by their extension; everything else is read as a binary.
pub proof fn law_loaders(ext: Seq<char>)
    ensures
        loader_for(ext) is Apk <==> ext == "apk"@ || ext == "aab"@,
        loader_for(ext) is Ipa <==> ext == "ipa"@,
{
    reveal_strlit("apk");
    reveal_strlit("aab");
    reveal_strlit("ipa");
    assert("apk"@[0] == 'a');
    assert("aab"@[0] == 'a');
    assert("ipa"@[0] == 'i');
}

// ---- progress --------------------------------------------------------------

/// Classes are lifted 64 at a time, the last run takes what is left; then come one
/// step that turns to the libraries and one per library.
pub proof fn law_apk_steps(input: ApkInput)
    ensures
        64 * apk_runs(input) - 64 < classes_before(
            input.dex_files@,
            input.dex_files@.len() as int,
        ) <= 64 * apk_runs(input),
        input.native_libs@.len() == 0 ==> apk_steps(input) == apk_runs(input),
        input.native_libs@.len() > 0 ==> apk_steps(input) == apk_runs(input) + 1
            + input.native_libs@.len(),
{
    lemma_class_rows(input.dex_files@, input.dex_files@.len() as int, 0, 0);
}

/// What the progress bar counts: the classes lifted of all classes, then the libraries
/// shown of all libraries.
pub proof fn law_apk_progress(p: Progress, input: ApkInput, s: int, done: bool)
    requires
        apk_shows(p, input, s, done),
        0 <= s <= apk_steps(input),
    ensures
        s <= apk_runs(input) ==> {
            &&& p.phase@ == "Lifting smali…"@
            &&& p.total == classes_before(input.dex_files@, input.dex_files@.len() as int)
            &&& s < apk_runs(input) ==> p.current == 64 * s
            &&& s == apk_runs(input) ==> p.current == p.total
        },
        s > apk_runs(input) ==> {
            &&& p.phase@ == "Disassembling native…"@
            &&& p.total == input.native_libs@.len()
            &&& p.current == s - apk_runs(input) - 1
        },
        p.done == done,
{
    lemma_class_rows(input.dex_files@, input.dex_files@.len() as int, 0, 0);
}

/// An iOS archive is loaded in as many parts as it has frameworks, and one for the
/// main executable.
pub proof fn law_ipa_parts(input: IpaInput)
    ensures
        ipa_parts(input) == 1 + input.frameworks@.len(),
{
}

// ---- plain disassembly -----------------------------------------------------

/// Each row of a disassembly is a line: its address in sixteen hexadecimal digits, two
/// spaces, and its text.
pub proof fn law_disassembly(rows: Seq<DisasmRow>, n: int)
    requires
        0 <= n < rows.len(),
    ensures
        disasm_text(rows, 0).len() == 0,
        disasm_text(rows, n + 1) == disasm_text(rows, n) + "0x"@ + zero_padded(
            hex(rows[n].address as int),
            16,
        ) + "  "@ + rows[n].text@ + "\n"@,
        DISASM_ROWS == 5000,
{
}

} // verus!

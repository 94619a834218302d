//! What a bundle holds of its native artifacts once they are loaded.

use crate::bundle::LoadedBundle;
use crate::container::{
    data_of, entered, info_of, infos_of, objc_of, swift_of, text_of, with_data, with_items,
    with_text, Container, ItemView, NativeBinary, NativesView, Section,
};
use crate::ids::{blake3_digest, joined_ids};
use crate::laws::leaves::law_rendered_types;
use crate::laws::listing::{address_of_insn, total_insns};
use crate::loader::{
    apk_artifacts, apk_natives, artifact_rows, binary_label, empty_snap, ipa_artifacts,
    ipa_frameworks, is_apk_bundle, is_ipa_bundle, with_artifact, ApkInput, Framework, IpaInput,
    NativeLib, Progress,
};
use crate::sections::{
    Architecture, DataSectionBytes, NativeSectionKind, SectionInfo, SectionKind, TextSectionBytes,
};
use crate::smali_index::{all_sites, decls_upto, indexes_calls, indexes_decls, RefKind};
use crate::symbols::sorted_by_address;
use vstd::prelude::*;

verus! {

// ---- one section -----------------------------------------------------------

/// A section keeps its kind.
pub open spec fn same_kind(a: SectionKind, b: NativeSectionKind) -> bool {
    &&& a is Text <==> b is Text
    &&& a is Data <==> b is Data
    &&& a is Rodata <==> b is Rodata
    &&& a is Bss <==> b is Bss
    &&& a is Debug <==> b is Debug
    &&& a is Other <==> b is Other
}

/// A descriptor tells what a section is.
pub open spec fn describes(i: SectionInfo, s: Section) -> bool {
    &&& i.name@ == s.name@
    &&& i.address == s.address
    &&& i.size == s.size
    &&& i.entropy == s.entropy
    &&& same_kind(s.kind, i.kind)
}

/// A code section is held with its place, its bytes and its instructions: those
/// that were decoded ahead of time for variable-width code, none for AArch64.
pub open spec fn carries_code(t: TextSectionBytes, s: Section, arch: Architecture) -> bool {
    &&& t.base == s.address
    &&& t.bytes@ == s.bytes@
    &&& t.arch == arch
    &&& arch is Aarch64 ==> t.precomputed is None
    &&& (arch is Arm || arch is X86 || arch is X86_64) ==> t.precomputed == s.insns
}

/// A section shown as hex is held with its place, its bytes and its kind.
pub open spec fn carries_bytes(d: DataSectionBytes, s: Section) -> bool {
    &&& d.base == s.address
    &&& d.bytes@ == s.bytes@
    &&& same_kind(s.kind, d.kind)
}

/// Section `k` of a binary can be listed: it holds code of a known architecture.
pub open spec fn lists(c: Container, k: int) -> bool {
    &&& 0 <= k < c.sections@.len()
    &&& c.sections@[k].kind is Text
    &&& c.architecture is Aarch64 || c.architecture is Arm || c.architecture is X86
        || c.architecture is X86_64
}

/// Section `k` of a binary is shown as hex: it has bytes and cannot be listed.
pub open spec fn dumps(c: Container, k: int) -> bool {
    &&& 0 <= k < c.sections@.len()
    &&& c.sections@[k].bytes@.len() > 0
    &&& !(c.sections@[k].kind is Text) || c.architecture is Other
}

// ---- artifacts -------------------------------------------------------------

/// A bundle holds an artifact: its label, a descriptor of each section, and its
/// sections by name. Of sections that share a name the last one counts.
pub open spec fn holds_artifact(w: NativesView, aid: Seq<u8>, label: Seq<char>, c: Container) -> bool {
    &&& w.labels.contains_key(aid)
    &&& w.labels[aid] == label
    &&& w.infos.contains_key(aid)
    &&& w.infos[aid].len() == c.sections@.len()
    &&& forall|k: int|
        0 <= k < c.sections@.len() ==> describes(w.infos[aid][k], #[trigger] c.sections@[k])
    &&& forall|k: int| #[trigger]
        lists(c, k) && (forall|j: int|
            k < j && #[trigger] lists(c, j) ==> c.sections@[j].name@ != c.sections@[k].name@) ==> {
            &&& w.text.contains_key((aid, c.sections@[k].name@))
            &&& carries_code(
                w.text[(aid, c.sections@[k].name@)],
                c.sections@[k],
                c.architecture,
            )
        }
    &&& forall|k: int| #[trigger]
        dumps(c, k) && (forall|j: int|
            k < j && #[trigger] dumps(c, j) ==> c.sections@[j].name@ != c.sections@[k].name@) ==> {
            &&& w.data.contains_key((aid, c.sections@[k].name@))
            &&& carries_bytes(w.data[(aid, c.sections@[k].name@)], c.sections@[k])
        }
}

/// `k` is a listed section of that name.
pub open spec fn names_code(c: Container, k: int, name: Seq<char>) -> bool {
    lists(c, k) && c.sections@[k].name@ == name
}

/// `k` is a section shown as hex of that name.
pub open spec fn names_bytes(c: Container, k: int, name: Seq<char>) -> bool {
    dumps(c, k) && c.sections@[k].name@ == name
}

/// `w` is `v` with nothing changed but what artifact `aid` brings.
pub open spec fn adds_only(v: NativesView, w: NativesView, aid: Seq<u8>, c: Container) -> bool {
    &&& forall|a: Seq<u8>|
        a != aid ==> {
            &&& #[trigger] w.labels.contains_key(a) == v.labels.contains_key(a)
            &&& v.labels.contains_key(a) ==> w.labels[a] == v.labels[a]
        }
    &&& forall|a: Seq<u8>|
        a != aid ==> {
            &&& #[trigger] w.infos.contains_key(a) == v.infos.contains_key(a)
            &&& v.infos.contains_key(a) ==> w.infos[a] == v.infos[a]
        }
    &&& forall|a: Seq<u8>, name: Seq<char>|
        !(a == aid && exists|k: int| #[trigger] names_code(c, k, name)) ==> {
            &&& #[trigger] w.text.contains_key((a, name)) == v.text.contains_key((a, name))
            &&& v.text.contains_key((a, name)) ==> w.text[(a, name)] == v.text[(a, name)]
        }
    &&& forall|a: Seq<u8>, name: Seq<char>|
        !(a == aid && exists|k: int| #[trigger] names_bytes(c, k, name)) ==> {
            &&& #[trigger] w.data.contains_key((a, name)) == v.data.contains_key((a, name))
            &&& v.data.contains_key((a, name)) ==> w.data[(a, name)] == v.data[(a, name)]
        }
}

proof fn lemma_text(m: Map<(Seq<u8>, Seq<char>), TextSectionBytes>, aid: Seq<u8>, c: Container, n: int)
    requires
        0 <= n <= c.sections@.len(),
    ensures
        forall|k: int| #[trigger]
            lists(c, k) && k < n && (forall|j: int|
                k < j < n && #[trigger] lists(c, j) ==> c.sections@[j].name@
                    != c.sections@[k].name@) ==> {
                &&& with_text(m, aid, c, n).contains_key((aid, c.sections@[k].name@))
                &&& with_text(m, aid, c, n)[(aid, c.sections@[k].name@)] == text_of(
                    c.sections@[k],
                    c.architecture,
                )
            },
        forall|a: Seq<u8>, name: Seq<char>|
            !(a == aid && exists|k: int| k < n && #[trigger] names_code(c, k, name)) ==> {
                &&& #[trigger] with_text(m, aid, c, n).contains_key((a, name)) == m.contains_key(
                    (a, name),
                )
                &&& m.contains_key((a, name)) ==> with_text(m, aid, c, n)[(a, name)] == m[(
                    a,
                    name,
                )]
            },
    decreases n,
{
    if n > 0 {
        lemma_text(m, aid, c, n - 1);
        let s = c.sections@[n - 1];
        let before = with_text(m, aid, c, n - 1);
        let now = with_text(m, aid, c, n);
        assert forall|k: int| #[trigger]
            lists(c, k) && k < n && (forall|j: int|
                k < j < n && #[trigger] lists(c, j) ==> c.sections@[j].name@
                    != c.sections@[k].name@) implies {
            &&& now.contains_key((aid, c.sections@[k].name@))
            &&& now[(aid, c.sections@[k].name@)] == text_of(c.sections@[k], c.architecture)
        } by {
            if k < n - 1 {
                if lists(c, n - 1) {
                    assert((aid, s.name@) != (aid, c.sections@[k].name@));
                }
            }
        }
        assert forall|a: Seq<u8>, name: Seq<char>|
            !(a == aid && exists|k: int| k < n && #[trigger] names_code(c, k, name)) implies {
            &&& #[trigger] now.contains_key((a, name)) == m.contains_key((a, name))
            &&& m.contains_key((a, name)) ==> now[(a, name)] == m[(a, name)]
        } by {
            assert(!(a == aid && names_code(c, n - 1, name)));
            assert(before.contains_key((a, name)) == m.contains_key((a, name)));
        }
    }
}

proof fn lemma_data(m: Map<(Seq<u8>, Seq<char>), DataSectionBytes>, aid: Seq<u8>, c: Container, n: int)
    requires
        0 <= n <= c.sections@.len(),
    ensures
        forall|k: int| #[trigger]
            dumps(c, k) && k < n && (forall|j: int|
                k < j < n && #[trigger] dumps(c, j) ==> c.sections@[j].name@
                    != c.sections@[k].name@) ==> {
                &&& with_data(m, aid, c, n).contains_key((aid, c.sections@[k].name@))
                &&& with_data(m, aid, c, n)[(aid, c.sections@[k].name@)] == data_of(c.sections@[k])
            },
        forall|a: Seq<u8>, name: Seq<char>|
            !(a == aid && exists|k: int| k < n && #[trigger] names_bytes(c, k, name)) ==> {
                &&& #[trigger] with_data(m, aid, c, n).contains_key((a, name)) == m.contains_key(
                    (a, name),
                )
                &&& m.contains_key((a, name)) ==> with_data(m, aid, c, n)[(a, name)] == m[(
                    a,
                    name,
                )]
            },
    decreases n,
{
    if n > 0 {
        lemma_data(m, aid, c, n - 1);
        let s = c.sections@[n - 1];
        let before = with_data(m, aid, c, n - 1);
        let now = with_data(m, aid, c, n);
        assert forall|k: int| #[trigger]
            dumps(c, k) && k < n && (forall|j: int|
                k < j < n && #[trigger] dumps(c, j) ==> c.sections@[j].name@
                    != c.sections@[k].name@) implies {
            &&& now.contains_key((aid, c.sections@[k].name@))
            &&& now[(aid, c.sections@[k].name@)] == data_of(c.sections@[k])
        } by {
            if k < n - 1 {
                if dumps(c, n - 1) {
                    assert((aid, s.name@) != (aid, c.sections@[k].name@));
                }
            }
        }
        assert forall|a: Seq<u8>, name: Seq<char>|
            !(a == aid && exists|k: int| k < n && #[trigger] names_bytes(c, k, name)) implies {
            &&& #[trigger] now.contains_key((a, name)) == m.contains_key((a, name))
            &&& m.contains_key((a, name)) ==> now[(a, name)] == m[(a, name)]
        } by {
            assert(!(a == aid && names_bytes(c, n - 1, name)));
            assert(before.contains_key((a, name)) == m.contains_key((a, name)));
        }
    }
}

/// Entering an artifact leaves the bundle holding it, and changes nothing else.
pub proof fn law_entering_an_artifact(v: NativesView, aid: Seq<u8>, label: Seq<char>, c: Container)
    ensures
        holds_artifact(entered(v, aid, label, c), aid, label, c),
        adds_only(v, entered(v, aid, label, c), aid, c),
{
    let w = entered(v, aid, label, c);
    let n = c.sections@.len() as int;
    lemma_text(v.text, aid, c, n);
    lemma_data(v.data, aid, c, n);
    assert forall|k: int| 0 <= k < n implies describes(
        w.infos[aid][k],
        #[trigger] c.sections@[k],
    ) by {
        assert(infos_of(c.sections@)[k] == info_of(c.sections@[k]));
    }
    assert forall|a: Seq<u8>, name: Seq<char>|
        !(a == aid && exists|k: int| #[trigger] names_code(c, k, name)) implies {
        &&& #[trigger] w.text.contains_key((a, name)) == v.text.contains_key((a, name))
        &&& v.text.contains_key((a, name)) ==> w.text[(a, name)] == v.text[(a, name)]
    } by {
        assert(!(a == aid && exists|k: int| k < n && #[trigger] names_code(c, k, name)));
    }
    assert forall|a: Seq<u8>, name: Seq<char>|
        !(a == aid && exists|k: int| #[trigger] names_bytes(c, k, name)) implies {
        &&& #[trigger] w.data.contains_key((a, name)) == v.data.contains_key((a, name))
        &&& v.data.contains_key((a, name)) ==> w.data[(a, name)] == v.data[(a, name)]
    } by {
        assert(!(a == aid && exists|k: int| k < n && #[trigger] names_bytes(c, k, name)));
    }
}

/// Variable-width code that was decoded has as many instructions as were decoded,
/// each at its address; AArch64 code has one every four bytes.
pub proof fn law_instructions_of_held_code(t: TextSectionBytes, s: Section, arch: Architecture, i: int)
    requires
        carries_code(t, s, arch),
        !(arch is Other),
    ensures
        !(arch is Aarch64) && s.insns is Some ==> {
            &&& t.insn_count() == s.insns->0@.len()
            &&& 0 <= i < s.insns->0@.len() ==> t.insn_addr(i) == s.insns->0@[i].address
        },
        arch is Aarch64 ==> {
            &&& t.insn_count() == s.bytes@.len() as int / 4
            &&& t.insn_addr(i) == s.address + 4 * i
        },
        t.insn_count() == total_insns(t),
        0 <= i < total_insns(t) ==> t.insn_addr(i) == address_of_insn(t, i),
{
}

// ---- bundles ---------------------------------------------------------------

/// A binary of an archive: its identity, the label it is shown under, and what was
/// parsed of it.
pub ghost struct Part {
    pub id: Seq<u8>,
    pub label: Seq<char>,
    pub container: Container,
}

/// Part `i` of an archive is a binary with that identity.
pub open spec fn is_part(parts: Seq<Option<Part>>, i: int, aid: Seq<u8>) -> bool {
    0 <= i < parts.len() && parts[i] is Some && parts[i]->0.id == aid
}

/// Part `i` has a listed section of that name.
pub open spec fn brings_code(parts: Seq<Option<Part>>, i: int, aid: Seq<u8>, name: Seq<char>) -> bool {
    is_part(parts, i, aid) && exists|k: int| #[trigger] names_code(parts[i]->0.container, k, name)
}

/// Part `i` has a section shown as hex of that name.
pub open spec fn brings_bytes(parts: Seq<Option<Part>>, i: int, aid: Seq<u8>, name: Seq<char>) -> bool {
    is_part(parts, i, aid) && exists|k: int| #[trigger] names_bytes(parts[i]->0.container, k, name)
}

/// A bundle holds all parts of an archive that could be parsed, and nothing else.
/// Of parts with one identity the last one counts.
pub open spec fn holds_parts(w: NativesView, parts: Seq<Option<Part>>) -> bool {
    &&& forall|i: int, aid: Seq<u8>| #[trigger]
        is_part(parts, i, aid) && (forall|j: int| i < j ==> !#[trigger] is_part(parts, j, aid))
            ==> holds_artifact(w, aid, parts[i]->0.label, parts[i]->0.container)
    &&& forall|aid: Seq<u8>| #[trigger]
        w.labels.contains_key(aid) ==> exists|i: int| #[trigger] is_part(parts, i, aid)
    &&& forall|aid: Seq<u8>| #[trigger]
        w.infos.contains_key(aid) ==> exists|i: int| #[trigger] is_part(parts, i, aid)
    &&& forall|aid: Seq<u8>, name: Seq<char>| #[trigger]
        w.text.contains_key((aid, name)) ==> exists|i: int| #[trigger]
            brings_code(parts, i, aid, name)
    &&& forall|aid: Seq<u8>, name: Seq<char>| #[trigger]
        w.data.contains_key((aid, name)) ==> exists|i: int| #[trigger]
            brings_bytes(parts, i, aid, name)
}

proof fn lemma_another(v: NativesView, parts: Seq<Option<Part>>, p: Part)
    requires
        holds_parts(v, parts),
    ensures
        holds_parts(entered(v, p.id, p.label, p.container), parts.push(Some(p))),
{
    let w = entered(v, p.id, p.label, p.container);
    let all = parts.push(Some(p));
    let n = parts.len() as int;
    law_entering_an_artifact(v, p.id, p.label, p.container);
    assert(is_part(all, n, p.id));
    assert forall|i: int, aid: Seq<u8>| #[trigger]
        is_part(all, i, aid) && (forall|j: int| i < j ==> !#[trigger] is_part(all, j, aid)) implies
        holds_artifact(w, aid, all[i]->0.label, all[i]->0.container) by {
        if i < n {
            assert(aid != p.id);
            assert(is_part(parts, i, aid));
            assert forall|j: int| i < j implies !#[trigger] is_part(parts, j, aid) by {
                if is_part(parts, j, aid) {
                    assert(is_part(all, j, aid));
                }
            }
            let c = all[i]->0.container;
            assert(holds_artifact(v, aid, all[i]->0.label, c));
            assert(w.labels.contains_key(aid) == v.labels.contains_key(aid));
            assert(w.infos.contains_key(aid) == v.infos.contains_key(aid));
            assert forall|k: int| #[trigger]
                lists(c, k) && (forall|j: int|
                    k < j && #[trigger] lists(c, j) ==> c.sections@[j].name@
                        != c.sections@[k].name@) implies {
                &&& w.text.contains_key((aid, c.sections@[k].name@))
                &&& carries_code(
                    w.text[(aid, c.sections@[k].name@)],
                    c.sections@[k],
                    c.architecture,
                )
            } by {
                let name = c.sections@[k].name@;
                assert(w.text.contains_key((aid, name)) == v.text.contains_key((aid, name)));
            }
            assert forall|k: int| #[trigger]
                dumps(c, k) && (forall|j: int|
                    k < j && #[trigger] dumps(c, j) ==> c.sections@[j].name@
                        != c.sections@[k].name@) implies {
                &&& w.data.contains_key((aid, c.sections@[k].name@))
                &&& carries_bytes(w.data[(aid, c.sections@[k].name@)], c.sections@[k])
            } by {
                let name = c.sections@[k].name@;
                assert(w.data.contains_key((aid, name)) == v.data.contains_key((aid, name)));
            }
        }
    }
    assert forall|aid: Seq<u8>| #[trigger] w.labels.contains_key(aid) implies exists|i: int|
        #[trigger] is_part(all, i, aid) by {
        if aid != p.id {
            let i = choose|i: int| #[trigger] is_part(parts, i, aid);
            assert(is_part(all, i, aid));
        }
    }
    assert forall|aid: Seq<u8>| #[trigger] w.infos.contains_key(aid) implies exists|i: int|
        #[trigger] is_part(all, i, aid) by {
        if aid != p.id {
            let i = choose|i: int| #[trigger] is_part(parts, i, aid);
            assert(is_part(all, i, aid));
        }
    }
    assert forall|aid: Seq<u8>, name: Seq<char>| #[trigger]
        w.text.contains_key((aid, name)) implies exists|i: int| #[trigger]
        brings_code(all, i, aid, name) by {
        if aid == p.id && exists|k: int| #[trigger] names_code(p.container, k, name) {
            assert(brings_code(all, n, aid, name));
        } else {
            assert(v.text.contains_key((aid, name)));
            let i = choose|i: int| #[trigger] brings_code(parts, i, aid, name);
            assert(brings_code(all, i, aid, name));
        }
    }
    assert forall|aid: Seq<u8>, name: Seq<char>| #[trigger]
        w.data.contains_key((aid, name)) implies exists|i: int| #[trigger]
        brings_bytes(all, i, aid, name) by {
        if aid == p.id && exists|k: int| #[trigger] names_bytes(p.container, k, name) {
            assert(brings_bytes(all, n, aid, name));
        } else {
            assert(v.data.contains_key((aid, name)));
            let i = choose|i: int| #[trigger] brings_bytes(parts, i, aid, name);
            assert(brings_bytes(all, i, aid, name));
        }
    }
}

proof fn lemma_nothing_more(v: NativesView, parts: Seq<Option<Part>>)
    requires
        holds_parts(v, parts),
    ensures
        holds_parts(v, parts.push(None)),
{
    let all = parts.push(None::<Part>);
    assert forall|i: int, aid: Seq<u8>| #[trigger] is_part(all, i, aid) == is_part(
        parts,
        i,
        aid,
    ) by {}
    assert forall|i: int, aid: Seq<u8>| #[trigger]
        is_part(all, i, aid) && (forall|j: int| i < j ==> !#[trigger] is_part(all, j, aid)) implies
        holds_artifact(v, aid, all[i]->0.label, all[i]->0.container) by {
        assert(is_part(parts, i, aid));
        assert forall|j: int| i < j implies !#[trigger] is_part(parts, j, aid) by {
            assert(!is_part(all, j, aid));
        }
    }
    assert forall|aid: Seq<u8>| #[trigger] v.labels.contains_key(aid) implies exists|i: int|
        #[trigger] is_part(all, i, aid) by {
        let i = choose|i: int| #[trigger] is_part(parts, i, aid);
        assert(is_part(all, i, aid));
    }
    assert forall|aid: Seq<u8>| #[trigger] v.infos.contains_key(aid) implies exists|i: int|
        #[trigger] is_part(all, i, aid) by {
        let i = choose|i: int| #[trigger] is_part(parts, i, aid);
        assert(is_part(all, i, aid));
    }
    assert forall|aid: Seq<u8>, name: Seq<char>| #[trigger]
        v.text.contains_key((aid, name)) implies exists|i: int| #[trigger]
        brings_code(all, i, aid, name) by {
        let i = choose|i: int| #[trigger] brings_code(parts, i, aid, name);
        assert(is_part(all, i, aid));
        assert(brings_code(all, i, aid, name));
    }
    assert forall|aid: Seq<u8>, name: Seq<char>| #[trigger]
        v.data.contains_key((aid, name)) implies exists|i: int| #[trigger]
        brings_bytes(all, i, aid, name) by {
        let i = choose|i: int| #[trigger] brings_bytes(parts, i, aid, name);
        assert(is_part(all, i, aid));
        assert(brings_bytes(all, i, aid, name));
    }
}

// ---- standalone binaries ---------------------------------------------------

/// The bundle of a standalone binary holds that binary and nothing else.
pub proof fn law_binary_is_held(
    b: NativeBinary,
    label: Seq<char>,
    origin: Seq<char>,
    type_origin: Seq<char>,
)
    ensures
        holds_parts(
            with_artifact(empty_snap(), b, label, origin, type_origin).natives,
            seq![Some(Part { id: blake3_digest(b.bytes@), label, container: b.container })],
        ),
{
    let p = Part { id: blake3_digest(b.bytes@), label, container: b.container };
    let none = Seq::<Option<Part>>::empty();
    assert(holds_parts(empty_snap().natives, none));
    lemma_another(empty_snap().natives, none, p);
    assert(none.push(Some(p)) =~= seq![Some(p)]);
}

// ---- Android archives ------------------------------------------------------

/// The libraries of an Android archive.
pub open spec fn apk_parts(libs: Seq<NativeLib>) -> Seq<Option<Part>> {
    libs.map_values(
        |l: NativeLib|
            Some(
                Part {
                    id: blake3_digest(l.binary.bytes@),
                    label: "lib/"@ + l.abi@ + "/"@ + l.name@,
                    container: l.binary.container,
                },
            ),
    )
}

proof fn lemma_apk(libs: Seq<NativeLib>, n: int)
    requires
        0 <= n <= libs.len(),
    ensures
        holds_parts(apk_natives(libs, n), apk_parts(libs).take(n)),
    decreases n,
{
    if n > 0 {
        lemma_apk(libs, n - 1);
        let before = apk_parts(libs).take(n - 1);
        let p = apk_parts(libs)[n - 1]->0;
        lemma_another(apk_natives(libs, n - 1), before, p);
        assert(before.push(Some(p)) =~= apk_parts(libs).take(n));
    } else {
        assert(apk_parts(libs).take(0) =~= Seq::<Option<Part>>::empty());
    }
}

/// The bundle of an Android archive holds its libraries and nothing else.
pub proof fn law_libraries_are_held(r: LoadedBundle, input: ApkInput)
    requires
        is_apk_bundle(r, input),
    ensures
        holds_parts(r.natives(), apk_parts(input.native_libs@)),
{
    let n = input.native_libs@.len() as int;
    lemma_apk(input.native_libs@, n);
    assert(apk_parts(input.native_libs@).take(n) =~= apk_parts(input.native_libs@));
}

// ---- iOS archives ----------------------------------------------------------

/// The main executable of an iOS archive, then its frameworks.
pub open spec fn ipa_binaries(input: IpaInput) -> Seq<Option<Part>> {
    seq![
        match input.main_executable {
            Some(b) => Some(
                Part {
                    id: blake3_digest(b.bytes@),
                    label: match input.executable {
                        Some(n) => n@,
                        None => "main"@,
                    },
                    container: b.container,
                },
            ),
            None => None,
        },
    ] + input.frameworks@.map_values(
        |f: Framework|
            match f.binary {
                Some(b) => Some(
                    Part {
                        id: blake3_digest(b.bytes@),
                        label: f.name@,
                        container: b.container,
                    },
                ),
                None => None,
            },
    )
}

proof fn lemma_ipa(input: IpaInput, n: int)
    requires
        0 <= n <= input.frameworks@.len(),
    ensures
        holds_parts(ipa_frameworks(input, n).natives, ipa_binaries(input).take(n + 1)),
    decreases n,
{
    let all = ipa_binaries(input);
    if n > 0 {
        lemma_ipa(input, n - 1);
        let v = ipa_frameworks(input, n - 1).natives;
        match input.frameworks@[n - 1].binary {
            Some(b) => {
                let p = Part {
                    id: blake3_digest(b.bytes@),
                    label: input.frameworks@[n - 1].name@,
                    container: b.container,
                };
                lemma_another(v, all.take(n), p);
                assert(all.take(n).push(Some(p)) =~= all.take(n + 1));
            },
            None => {
                lemma_nothing_more(v, all.take(n));
                assert(all.take(n).push(None) =~= all.take(n + 1));
            },
        }
    } else {
        let none = Seq::<Option<Part>>::empty();
        let v = empty_snap().natives;
        assert(holds_parts(v, none));
        match input.main_executable {
            Some(b) => {
                let p = all[0]->0;
                lemma_another(v, none, p);
                assert(none.push(Some(p)) =~= all.take(1));
            },
            None => {
                lemma_nothing_more(v, none);
                assert(none.push(None) =~= all.take(1));
            },
        }
    }
}

/// The bundle of an iOS archive holds the main executable and the frameworks that
/// could be parsed, and nothing else.
pub proof fn law_executables_are_held(r: LoadedBundle, input: IpaInput)
    requires
        is_ipa_bundle(r, input),
    ensures
        holds_parts(r.natives(), ipa_binaries(input)),
{
    let n = input.frameworks@.len() as int;
    lemma_ipa(input, n);
    assert(ipa_binaries(input).take(n + 1) =~= ipa_binaries(input));
}

// ---- symbols and types -----------------------------------------------------

/// The symbols of a library are held in address order, those of the last one where
/// libraries share an identity; nothing else has symbols.
pub proof fn law_library_symbols(r: LoadedBundle, input: ApkInput, i: int)
    requires
        is_apk_bundle(r, input),
        0 <= i < input.native_libs@.len(),
        forall|j: int|
            i < j < input.native_libs@.len() ==> blake3_digest(
                (#[trigger] input.native_libs@[j]).binary.bytes@,
            ) != blake3_digest(input.native_libs@[i].binary.bytes@),
    ensures
        ({
            let aid = blake3_digest(input.native_libs@[i].binary.bytes@);
            &&& r.symbol_maps@.contains_key(aid)
            &&& sorted_by_address(input.native_libs@[i].binary.symbols@, r.symbol_maps@[aid]@)
        }),
        forall|a: Seq<u8>| #[trigger]
            r.symbol_maps@.contains_key(a) ==> exists|j: int|
                0 <= j < input.native_libs@.len() && blake3_digest(
                    (#[trigger] input.native_libs@[j]).binary.bytes@,
                ) == a,
{
    let libs = input.native_libs@;
    let all = apk_artifacts(libs);
    assert(all[i].0 == blake3_digest(libs[i].binary.bytes@));
    assert forall|j: int| i < j < all.len() implies (#[trigger] all[j]).0 != all[i].0 by {
        let l = libs[j];
    }
    assert forall|a: Seq<u8>| #[trigger] r.symbol_maps@.contains_key(a) implies exists|j: int|
        0 <= j < libs.len() && blake3_digest((#[trigger] libs[j]).binary.bytes@) == a by {
        let j = choose|j: int| 0 <= j < all.len() && (#[trigger] all[j]).0 == a;
        assert(blake3_digest(libs[j].binary.bytes@) == a);
    }
}

/// The binary of part `i` of an iOS archive: the main executable, then the frameworks.
pub open spec fn ipa_binary(input: IpaInput, i: int) -> Option<NativeBinary> {
    if i == 0 {
        input.main_executable
    } else {
        input.frameworks@[i - 1].binary
    }
}

proof fn lemma_ipa_artifacts(input: IpaInput, n: int, i: int) -> (k: int)
    requires
        0 <= n <= input.frameworks@.len(),
        0 <= i <= n,
        ipa_binary(input, i) is Some,
        forall|j: int|
            i < j <= n && (#[trigger] ipa_binary(input, j)) is Some ==> blake3_digest(
                ipa_binary(input, j)->0.bytes@,
            ) != blake3_digest(ipa_binary(input, i)->0.bytes@),
    ensures
        0 <= k < ipa_artifacts(input, n).len(),
        ipa_artifacts(input, n)[k] == (
            blake3_digest(ipa_binary(input, i)->0.bytes@),
            ipa_binary(input, i)->0.symbols@,
        ),
        forall|q: int|
            k < q < ipa_artifacts(input, n).len() ==> (#[trigger] ipa_artifacts(input, n)[q]).0
                != blake3_digest(ipa_binary(input, i)->0.bytes@),
    decreases n,
{
    let all = ipa_artifacts(input, n);
    if n == 0 {
        0
    } else if i == n {
        assert(ipa_binary(input, n) == input.frameworks@[n - 1].binary);
        all.len() - 1
    } else {
        let k = lemma_ipa_artifacts(input, n - 1, i);
        assert(ipa_binary(input, n) == input.frameworks@[n - 1].binary);
        k
    }
}

/// The symbols of an executable of an iOS archive are held in address order, those of
/// the last one where executables share an identity.
pub proof fn law_executable_symbols(r: LoadedBundle, input: IpaInput, i: int)
    requires
        is_ipa_bundle(r, input),
        0 <= i <= input.frameworks@.len(),
        ipa_binary(input, i) is Some,
        forall|j: int|
            i < j <= input.frameworks@.len() && (#[trigger] ipa_binary(input, j)) is Some
                ==> blake3_digest(ipa_binary(input, j)->0.bytes@) != blake3_digest(
                ipa_binary(input, i)->0.bytes@,
            ),
    ensures
        ({
            let b = ipa_binary(input, i)->0;
            let aid = blake3_digest(b.bytes@);
            &&& r.symbol_maps@.contains_key(aid)
            &&& sorted_by_address(b.symbols@, r.symbol_maps@[aid]@)
        }),
{
    let n = input.frameworks@.len() as int;
    let k = lemma_ipa_artifacts(input, n, i);
    let all = ipa_artifacts(input, n);
    assert(all[k].0 == blake3_digest(ipa_binary(input, i)->0.bytes@));
}

/// What is held of the types of the parts up to `n`: those of part `i` under its
/// identity, where no later part shares it.
proof fn lemma_types(input: IpaInput, n: int, i: int, name: Seq<char>)
    requires
        0 <= i <= n <= input.frameworks@.len(),
        ipa_binary(input, i) is Some,
        forall|j: int|
            i < j <= n && (#[trigger] ipa_binary(input, j)) is Some ==> blake3_digest(
                ipa_binary(input, j)->0.bytes@,
            ) != blake3_digest(ipa_binary(input, i)->0.bytes@),
    ensures
        ({
            let b = ipa_binary(input, i)->0;
            let aid = blake3_digest(b.bytes@);
            let snap = ipa_frameworks(input, n);
            &&& forall|q: int|
                last_named(objc_of(b.container), q, name) ==> snap.objc.contains_key((aid, name))
                    && snap.objc[(aid, name)] == (#[trigger] objc_of(b.container)[q]).rows
            &&& forall|q: int|
                last_named(swift_of(b.container), q, name) ==> snap.swift.contains_key((aid, name))
                    && snap.swift[(aid, name)] == (#[trigger] swift_of(b.container)[q]).rows
        }),
    decreases n,
{
    let b = ipa_binary(input, i)->0;
    let aid = blake3_digest(b.bytes@);
    let snap = ipa_frameworks(input, n);
    if i < n {
        lemma_types(input, n - 1, i, name);
        let before = ipa_frameworks(input, n - 1);
        if let Some(f) = input.frameworks@[n - 1].binary {
            assert(ipa_binary(input, n) == Some(f));
            let id = blake3_digest(f.bytes@);
            assert(id != aid);
            let c = f.container;
            law_rendered_types(before.objc, id, objc_of(c), objc_of(c).len() as int);
            law_rendered_types(before.swift, id, swift_of(c), swift_of(c).len() as int);
            assert(snap.objc.contains_key((aid, name)) == before.objc.contains_key((aid, name)));
            assert(snap.swift.contains_key((aid, name)) == before.swift.contains_key((aid, name)));
        }
    } else {
        let c = b.container;
        let objc = if n == 0 {
            Map::empty()
        } else {
            ipa_frameworks(input, n - 1).objc
        };
        let swift = if n == 0 {
            Map::empty()
        } else {
            ipa_frameworks(input, n - 1).swift
        };
        law_rendered_types(objc, aid, objc_of(c), objc_of(c).len() as int);
        law_rendered_types(swift, aid, swift_of(c), swift_of(c).len() as int);
        assert(snap.objc == with_items(objc, aid, objc_of(c), objc_of(c).len() as int));
        assert(snap.swift == with_items(swift, aid, swift_of(c), swift_of(c).len() as int));
    }
}

/// Item `q` is the last one of that name.
pub open spec fn last_named(items: Seq<ItemView>, q: int, name: Seq<char>) -> bool {
    &&& 0 <= q < items.len()
    &&& items[q].name == name
    &&& forall|j: int| q < j < items.len() ==> (#[trigger] items[j]).name != name
}

/// The types of an executable of an iOS archive are held rendered, under its identity
/// and their names, Objective-C and Swift apart.
pub proof fn law_executable_types(r: LoadedBundle, input: IpaInput, i: int, q: int, name: Seq<char>)
    requires
        is_ipa_bundle(r, input),
        0 <= i <= input.frameworks@.len(),
        ipa_binary(input, i) is Some,
        forall|j: int|
            i < j <= input.frameworks@.len() && (#[trigger] ipa_binary(input, j)) is Some
                ==> blake3_digest(ipa_binary(input, j)->0.bytes@) != blake3_digest(
                ipa_binary(input, i)->0.bytes@,
            ),
    ensures
        ({
            let b = ipa_binary(input, i)->0;
            let key = (blake3_digest(b.bytes@), name);
            &&& last_named(objc_of(b.container), q, name) ==> r.objc_classes@.contains_key(key)
                && r.objc_classes@[key] == objc_of(b.container)[q].rows
            &&& last_named(swift_of(b.container), q, name) ==> r.swift_types@.contains_key(key)
                && r.swift_types@[key] == swift_of(b.container)[q].rows
        }),
{
    lemma_types(input, input.frameworks@.len() as int, i, name);
    let b = ipa_binary(input, i)->0;
    if 0 <= q < objc_of(b.container).len() {
        let x = objc_of(b.container)[q];
    }
    if 0 <= q < swift_of(b.container).len() {
        let x = swift_of(b.container)[q];
    }
}

/// The types of a standalone binary are held rendered, under its identity and their
/// names, Objective-C and Swift apart.
pub proof fn law_binary_types(
    b: NativeBinary,
    label: Seq<char>,
    origin: Seq<char>,
    type_origin: Seq<char>,
    q: int,
    name: Seq<char>,
)
    ensures
        ({
            let snap = with_artifact(empty_snap(), b, label, origin, type_origin);
            let key = (blake3_digest(b.bytes@), name);
            &&& last_named(objc_of(b.container), q, name) ==> snap.objc.contains_key(key)
                && snap.objc[key] == objc_of(b.container)[q].rows
            &&& last_named(swift_of(b.container), q, name) ==> snap.swift.contains_key(key)
                && snap.swift[key] == swift_of(b.container)[q].rows
            &&& snap.ids == seq![key.0]
            &&& snap.rows == artifact_rows(key.0, b.container, label, origin, type_origin)
        }),
{
    let aid = blake3_digest(b.bytes@);
    let c = b.container;
    law_rendered_types(Map::empty(), aid, objc_of(c), objc_of(c).len() as int);
    law_rendered_types(Map::empty(), aid, swift_of(c), swift_of(c).len() as int);
    let snap = with_artifact(empty_snap(), b, label, origin, type_origin);
    assert(snap.ids =~= seq![aid]);
    assert(snap.rows =~= artifact_rows(aid, c, label, origin, type_origin));
    if last_named(objc_of(c), q, name) {
        let x = objc_of(c)[q];
    }
    if last_named(swift_of(c), q, name) {
        let x = swift_of(c)[q];
    }
}

// ---- the rest of a bundle --------------------------------------------------

/// Nothing of a fresh bundle is indexed or edited.
pub proof fn law_untouched(b: LoadedBundle)
    requires
        b.untouched(),
    ensures
        b.xrefs.native is Pending,
        b.xrefs.dex_callers is Pending,
        b.xrefs.dex_field_refs is Pending,
        b.edits@.len() == 0,
        b.smali_edits@.len() == 0,
{
}

/// The bundle of an Android archive is titled by its path, known by the digest of its
/// artifacts, and shows the manifest that could be decoded; its indices of methods
/// cover its own leaves.
pub proof fn law_apk_bundle(r: LoadedBundle, input: ApkInput)
    requires
        is_apk_bundle(r, input),
    ensures
        r.title@ == "Glass — "@ + input.path@,
        r.bundle_id is Some,
        r.bundle_id->0@ == blake3_digest(joined_ids(r.artifact_ids@, r.artifact_ids@.len() as int)),
        r.parallel(),
        r.untouched(),
        input.manifest is Some && input.manifest_bytes is Some ==> {
            let aid = blake3_digest(input.manifest_bytes->0@);
            &&& r.manifest_rows == input.manifest->0
            &&& r.manifest_sources@.contains_key(aid)
            &&& r.manifest_sources@[aid] == (input.manifest_archive_path, input.manifest_bytes->0)
        },
        input.manifest is None || input.manifest_bytes is None ==> r.manifest_rows@.len() == 0,
        indexes_decls(r.method_lines@, decls_upto(r.kinds@, r.bodies@, r.kinds@.len() as int)),
        indexes_calls(r.method_calls@, all_sites(RefKind::Invoke, r.kinds@, r.bodies@)),
{
}

/// The bundle of an iOS archive is titled by its path, known by the digest of its
/// artifacts, and shows its property list.
pub proof fn law_ipa_bundle(r: LoadedBundle, input: IpaInput)
    requires
        is_ipa_bundle(r, input),
    ensures
        r.title@ == "Glass — "@ + input.path@,
        r.bundle_id is Some,
        r.bundle_id->0@ == blake3_digest(joined_ids(r.artifact_ids@, r.artifact_ids@.len() as int)),
        r.parallel(),
        r.untouched(),
        r.manifest_rows == input.info_rows,
        r.plist_sources@.contains_key(blake3_digest(input.info_bytes@)),
        r.plist_sources@[blake3_digest(input.info_bytes@)] == (
            input.info_archive_path,
            input.info_bytes,
        ),
        indexes_decls(r.method_lines@, decls_upto(r.kinds@, r.bodies@, r.kinds@.len() as int)),
        indexes_calls(r.method_calls@, all_sites(RefKind::Invoke, r.kinds@, r.bodies@)),
{
}

/// A standalone binary is shown under its file name.
pub proof fn law_binary_label(n: Option<String>)
    ensures
        n matches Some(x) ==> binary_label(n) == x@,
        n is None ==> binary_label(n) == "binary"@,
{
}

/// The state of the progress bar is that of its fields.
pub proof fn law_progress_state(p: Progress, phase: Seq<char>, current: int, total: int, done: bool)
    ensures
        p.at(phase, current, total, done) <==> p.phase@ == phase && p.current == current && p.total
            == total && p.done == done,
{
}

} // verus!

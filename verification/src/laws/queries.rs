//! Staged edits, and the questions that views ask of a bundle.

use crate::bundle::{
    absorbs, backing_leaf, class_leaf, declaring_line, edit_word, section_holding, LoadedBundle,
};
use crate::edits::{edit_at, edit_over, smali_edit_for, smali_edit_of, SmaliEdit, StagedEdit};
use crate::laws::smali::declares;
use crate::laws::tabs::shows;
use crate::laws::text::{law_first_occurrence, stands_at};
use crate::leaf::{smali_class, LeafKind, TabState};
use crate::sections::SectionInfo;
use crate::text::{find_from, lines, trimmed};
use vstd::prelude::*;

verus! {

// ---- byte edits ------------------------------------------------------------

/// Edit `k` replaces the bytes of `artifact` that begin at `addr`.
pub open spec fn begins_at(edits: Seq<StagedEdit>, k: int, artifact: Seq<u8>, addr: u64) -> bool {
    0 <= k < edits.len() && edits[k].artifact@ == artifact && edits[k].vaddr == addr
}

/// Edit `k` replaces the byte of `artifact` at `addr`.
pub open spec fn replaces(edits: Seq<StagedEdit>, k: int, artifact: Seq<u8>, addr: u64) -> bool {
    0 <= k < edits.len() && edits[k].artifact@ == artifact && edits[k].vaddr <= addr < edits[k].vaddr
        + edits[k].new_bytes@.len()
}

/// The edit that is found at an address is the first that begins there.
pub proof fn law_edit_at(edits: Seq<StagedEdit>, artifact: Seq<u8>, addr: u64, i: int)
    requires
        0 <= i,
    ensures
        match edit_at(edits, artifact, addr, i) {
            Some(k) => i <= k && begins_at(edits, k, artifact, addr) && forall|j: int|
                i <= j < k ==> !#[trigger] begins_at(edits, j, artifact, addr),
            None => forall|j: int| i <= j ==> !#[trigger] begins_at(edits, j, artifact, addr),
        },
    decreases edits.len() - i,
{
    if i < edits.len() && !begins_at(edits, i, artifact, addr) {
        law_edit_at(edits, artifact, addr, i + 1);
    }
}

/// The edit that is found over an address is the first that replaces the byte
/// there.
pub proof fn law_edit_over(edits: Seq<StagedEdit>, artifact: Seq<u8>, addr: u64, i: int)
    requires
        0 <= i,
    ensures
        match edit_over(edits, artifact, addr, i) {
            Some(k) => i <= k && replaces(edits, k, artifact, addr) && forall|j: int|
                i <= j < k ==> !#[trigger] replaces(edits, j, artifact, addr),
            None => forall|j: int| i <= j ==> !#[trigger] replaces(edits, j, artifact, addr),
        },
    decreases edits.len() - i,
{
    if i < edits.len() && !replaces(edits, i, artifact, addr) {
        law_edit_over(edits, artifact, addr, i + 1);
    }
}

/// The edits after one more was staged.
pub open spec fn staged(before: Seq<StagedEdit>, edit: StagedEdit) -> Seq<StagedEdit> {
    match edit_at(before, edit.artifact@, edit.vaddr, 0) {
        Some(k) => before.update(k, edit),
        None => before.push(edit),
    }
}

/// An edit staged at one address is found there, and leaves what is found at every
/// other address.
pub proof fn law_staging(before: Seq<StagedEdit>, edit: StagedEdit, artifact: Seq<u8>, addr: u64)
    ensures
        ({
            let after = staged(before, edit);
            let found = edit_at(after, artifact, addr, 0);
            let was = edit_at(before, artifact, addr, 0);
            if artifact == edit.artifact@ && addr == edit.vaddr {
                found is Some && after[found->0] == edit
            } else {
                &&& found is Some <==> was is Some
                &&& found is Some ==> after[found->0] == before[was->0]
            }
        }),
{
    let after = staged(before, edit);
    law_edit_at(before, edit.artifact@, edit.vaddr, 0);
    law_edit_at(before, artifact, addr, 0);
    law_edit_at(after, artifact, addr, 0);
    let found = edit_at(after, artifact, addr, 0);
    let was = edit_at(before, artifact, addr, 0);
    let at = match edit_at(before, edit.artifact@, edit.vaddr, 0) {
        Some(k) => k,
        None => before.len() as int,
    };
    assert forall|j: int| j != at implies #[trigger] begins_at(after, j, artifact, addr)
        == begins_at(before, j, artifact, addr) by {}
    assert(begins_at(after, at, edit.artifact@, edit.vaddr));
    if artifact == edit.artifact@ && addr == edit.vaddr {
        if let Some(k) = found {
            if k < at {
                assert(begins_at(before, k, artifact, addr));
            }
        }
    } else {
        assert(!begins_at(after, at, artifact, addr));
        assert(!begins_at(before, at, artifact, addr));
        if let Some(k) = was {
            assert(begins_at(after, k, artifact, addr));
        }
        if let Some(k) = found {
            assert(begins_at(before, k, artifact, addr));
        }
    }
}

/// The word that an edit puts in place is its first four bytes, zero beyond them.
pub proof fn law_edit_word(bytes: Seq<u8>, k: int)
    requires
        0 <= k < 4,
    ensures
        edit_word(bytes).len() == 4,
        k < bytes.len() ==> edit_word(bytes)[k] == bytes[k],
        k >= bytes.len() ==> edit_word(bytes)[k] == 0,
{
}

/// An edit takes over the bytes that follow the ones it replaces, as many as it
/// says.
pub proof fn law_absorbed(e: StagedEdit, artifact: Seq<u8>, addr: u64)
    requires
        e.vaddr + e.original_bytes@.len() + e.absorbed_following <= u64::MAX,
    ensures
        absorbs(e, artifact, addr) <==> e.artifact@ == artifact && 0 <= addr - e.vaddr
            - e.original_bytes@.len() < e.absorbed_following,
{
}

// ---- class edits -----------------------------------------------------------

/// Edit `k` replaces that class of that artifact.
pub open spec fn rewrites(edits: Seq<SmaliEdit>, k: int, artifact: Seq<u8>, class: Seq<char>) -> bool {
    0 <= k < edits.len() && edits[k].artifact@ == artifact && edits[k].class_jni@ == class
}

/// Edit `k` replaces that class of some artifact.
pub open spec fn rewrites_any(edits: Seq<SmaliEdit>, k: int, class: Seq<char>) -> bool {
    0 <= k < edits.len() && edits[k].class_jni@ == class
}

/// The edit that is found of a class is the first one.
pub proof fn law_class_edit(edits: Seq<SmaliEdit>, artifact: Seq<u8>, class: Seq<char>, i: int)
    requires
        0 <= i,
    ensures
        match smali_edit_for(edits, artifact, class, i) {
            Some(k) => i <= k && rewrites(edits, k, artifact, class) && forall|j: int|
                i <= j < k ==> !#[trigger] rewrites(edits, j, artifact, class),
            None => forall|j: int| i <= j ==> !#[trigger] rewrites(edits, j, artifact, class),
        },
        match smali_edit_of(edits, class, i) {
            Some(k) => i <= k && rewrites_any(edits, k, class) && forall|j: int|
                i <= j < k ==> !#[trigger] rewrites_any(edits, j, class),
            None => forall|j: int| i <= j ==> !#[trigger] rewrites_any(edits, j, class),
        },
    decreases edits.len() - i,
{
    if i < edits.len() {
        law_class_edit(edits, artifact, class, i + 1);
    }
}

/// A class that was staged is found again, and leaves what is found of every other
/// class.
pub proof fn law_class_staging(
    before: Seq<SmaliEdit>,
    edit: SmaliEdit,
    artifact: Seq<u8>,
    class: Seq<char>,
)
    ensures
        ({
            let after = match smali_edit_for(before, edit.artifact@, edit.class_jni@, 0) {
                Some(k) => before.update(k, edit),
                None => before.push(edit),
            };
            let found = smali_edit_for(after, artifact, class, 0);
            let was = smali_edit_for(before, artifact, class, 0);
            if artifact == edit.artifact@ && class == edit.class_jni@ {
                found is Some && after[found->0] == edit
            } else {
                &&& found is Some <==> was is Some
                &&& found is Some ==> after[found->0] == before[was->0]
            }
        }),
{
    let at = match smali_edit_for(before, edit.artifact@, edit.class_jni@, 0) {
        Some(k) => k,
        None => before.len() as int,
    };
    let after = match smali_edit_for(before, edit.artifact@, edit.class_jni@, 0) {
        Some(k) => before.update(k, edit),
        None => before.push(edit),
    };
    law_class_edit(before, edit.artifact@, edit.class_jni@, 0);
    law_class_edit(before, artifact, class, 0);
    law_class_edit(after, artifact, class, 0);
    let found = smali_edit_for(after, artifact, class, 0);
    let was = smali_edit_for(before, artifact, class, 0);
    assert forall|j: int| j != at implies #[trigger] rewrites(after, j, artifact, class)
        == rewrites(before, j, artifact, class) by {}
    assert(rewrites(after, at, edit.artifact@, edit.class_jni@));
    if artifact == edit.artifact@ && class == edit.class_jni@ {
        if let Some(k) = found {
            if k < at {
                assert(rewrites(before, k, artifact, class));
            }
        }
    } else {
        assert(!rewrites(after, at, artifact, class));
        assert(!rewrites(before, at, artifact, class));
        if let Some(k) = was {
            assert(rewrites(after, k, artifact, class));
        }
        if let Some(k) = found {
            assert(rewrites(before, k, artifact, class));
        }
    }
}

// ---- leaves and lines ------------------------------------------------------

/// A persisted tab leads to the first leaf that shows what the tab showed.
pub proof fn law_backing_leaf(kinds: Seq<LeafKind>, st: TabState, i: int)
    requires
        0 <= i,
    ensures
        match backing_leaf(kinds, st, i) {
            Some(k) => i <= k < kinds.len() && shows(kinds[k], st) && forall|j: int|
                i <= j < k ==> !shows(#[trigger] kinds[j], st),
            None => forall|j: int| i <= j < kinds.len() ==> !shows(#[trigger] kinds[j], st),
        },
    decreases kinds.len() - i,
{
    if i < kinds.len() {
        crate::laws::tabs::law_backing(kinds[i], st);
        if !shows(kinds[i], st) {
            law_backing_leaf(kinds, st, i + 1);
        }
    }
}

/// A class leads to its first leaf.
pub proof fn law_class_leaf(kinds: Seq<LeafKind>, class: Seq<char>, i: int)
    requires
        0 <= i,
    ensures
        match class_leaf(kinds, class, i) {
            Some(k) => {
                &&& i <= k < kinds.len()
                &&& kinds[k] is SmaliClass
                &&& kinds[k]->SmaliClass_class_jni@ == class
                &&& forall|j: int|
                    i <= j < k && #[trigger] kinds[j] is SmaliClass
                        ==> kinds[j]->SmaliClass_class_jni@ != class
            },
            None => forall|j: int|
                i <= j < kinds.len() && #[trigger] kinds[j] is SmaliClass
                    ==> kinds[j]->SmaliClass_class_jni@ != class,
        },
    decreases kinds.len() - i,
{
    if i < kinds.len() && smali_class(kinds[i]) != Some(class) {
        law_class_leaf(kinds, class, i + 1);
    }
}

/// A method is looked up at the first line that declares it.
pub proof fn law_declaring_line(body: Seq<Seq<char>>, decl: Seq<char>, i: int)
    requires
        0 <= i,
    ensures
        match declaring_line(body, decl, i) {
            Some(k) => i <= k < body.len() && declares(trimmed(body[k]), decl) && forall|j: int|
                i <= j < k ==> !declares(trimmed(#[trigger] body[j]), decl),
            None => forall|j: int|
                i <= j < body.len() ==> !declares(trimmed(#[trigger] body[j]), decl),
        },
    decreases body.len() - i,
{
    if i < body.len() {
        crate::laws::smali::law_declaration(trimmed(body[i]), decl);
        if !declares(trimmed(body[i]), decl) {
            law_declaring_line(body, decl, i + 1);
        }
    }
}

// ---- sections --------------------------------------------------------------

/// Section `k` contains `addr` and is code, or bytes of another kind that are
/// stored in the file.
pub open spec fn offers(sections: Seq<SectionInfo>, k: int, code: bool, addr: u64) -> bool {
    &&& 0 <= k < sections.len()
    &&& if code {
        sections[k].kind is Text
    } else {
        sections[k].kind is Data || sections[k].kind is Rodata || sections[k].kind is Debug
            || sections[k].kind is Other
    }
    &&& sections[k].address <= addr < sections[k].address + sections[k].size
    &&& addr < u64::MAX
}

/// An address leads to the first section of the wanted sort that contains it.
pub proof fn law_section_holding(sections: Seq<SectionInfo>, code: bool, addr: u64, i: int)
    requires
        0 <= i,
    ensures
        match section_holding(sections, code, addr, i) {
            Some(k) => i <= k && offers(sections, k, code, addr) && forall|j: int|
                i <= j < k ==> !#[trigger] offers(sections, j, code, addr),
            None => forall|j: int| i <= j ==> !#[trigger] offers(sections, j, code, addr),
        },
    decreases sections.len() - i,
{
    if i < sections.len() && !offers(sections, i, code, addr) {
        law_section_holding(sections, code, addr, i + 1);
    }
}

/// The section of an artifact that an address leads to, by name, and its bytes.
pub proof fn law_section_at(b: &LoadedBundle, artifact: Seq<u8>, code: bool, addr: u64, k: int)
    requires
        b.native_sections@.contains_key(artifact),
        offers(b.native_sections@[artifact]@, k, code, addr),
        forall|j: int|
            0 <= j < k ==> !#[trigger] offers(b.native_sections@[artifact]@, j, code, addr),
    ensures
        ({
            let key = (artifact, b.native_sections@[artifact]@[k].name@);
            &&& b.section_name(artifact, code, addr) == Some(key.1)
            &&& code ==> b.code_at(artifact, addr) == (if b.text_sections@.contains_key(key) {
                Some(b.text_sections@[key])
            } else {
                None
            })
            &&& !code ==> b.data_at(artifact, addr) == (if b.data_sections@.contains_key(key) {
                Some(b.data_sections@[key])
            } else {
                None
            })
        }),
{
    let sections = b.native_sections@[artifact]@;
    law_section_holding(sections, code, addr, 0);
    match section_holding(sections, code, addr, 0) {
        Some(q) => {
            if q < k {
                assert(!offers(sections, q, code, addr));
            }
        },
        None => {},
    }
}

/// An address that no section of the wanted sort contains leads nowhere.
pub proof fn law_no_section_at(b: &LoadedBundle, artifact: Seq<u8>, code: bool, addr: u64)
    requires
        b.native_sections@.contains_key(artifact) ==> forall|j: int|
            !#[trigger] offers(b.native_sections@[artifact]@, j, code, addr),
    ensures
        b.section_name(artifact, code, addr) is None,
        code ==> b.code_at(artifact, addr) is None,
        !code ==> b.data_at(artifact, addr) is None,
{
    if b.native_sections@.contains_key(artifact) {
        let sections = b.native_sections@[artifact]@;
        law_section_holding(sections, code, addr, 0);
        if let Some(q) = section_holding(sections, code, addr, 0) {
            assert(!offers(sections, q, code, addr));
        }
    }
}

// ---- methods ---------------------------------------------------------------

/// Where the index built at load says that a method is.
pub open spec fn as_loaded(b: &LoadedBundle, key: Seq<char>) -> Option<(int, int)> {
    if b.method_lines@.contains_key(key) {
        Some((b.method_lines@[key].0.0 as int, b.method_lines@[key].1 as int))
    } else {
        None
    }
}

/// Line `x` is the first of the text that declares `decl`.
pub open spec fn first_declared(text: Seq<char>, decl: Seq<char>, x: int) -> bool {
    &&& 0 <= x < lines(text).len()
    &&& declares(trimmed(lines(text)[x]), decl)
    &&& forall|j: int| 0 <= j < x ==> !declares(trimmed(#[trigger] lines(text)[j]), decl)
}

/// A method of a class without a staged edit is where the index says.
pub proof fn law_method_of_an_unedited_class(b: &LoadedBundle, class: Seq<char>, decl: Seq<char>)
    requires
        forall|i: int|
            0 <= i < class.len() ==> !#[trigger] stands_at(class + "->"@ + decl, "->"@, i),
        forall|k: int| !#[trigger] rewrites_any(b.smali_edits@, k, class),
    ensures
        b.method_line(class + "->"@ + decl) == as_loaded(b, class + "->"@ + decl),
{
    lemma_split(class, decl);
    law_class_edit(b.smali_edits@, Seq::empty(), class, 0);
    if let Some(k) = smali_edit_of(b.smali_edits@, class, 0) {
        assert(rewrites_any(b.smali_edits@, k, class));
    }
}

/// A method that the first staged edit of its class declares is at the line that
/// declares it there; the leaf is that of the index, or the first one of the class.
pub proof fn law_method_of_an_edited_class(
    b: &LoadedBundle,
    class: Seq<char>,
    decl: Seq<char>,
    k: int,
    x: int,
    leaf: int,
)
    requires
        forall|i: int|
            0 <= i < class.len() ==> !#[trigger] stands_at(class + "->"@ + decl, "->"@, i),
        rewrites_any(b.smali_edits@, k, class),
        forall|j: int| 0 <= j < k ==> !#[trigger] rewrites_any(b.smali_edits@, j, class),
        first_declared(b.smali_edits@[k].modified@, decl, x),
        match as_loaded(b, class + "->"@ + decl) {
            Some(hit) => leaf == hit.0,
            None => class_leaf(b.kinds@, class, 0) == Some(leaf),
        },
    ensures
        b.method_line(class + "->"@ + decl) == Some((leaf, x)),
{
    lemma_split(class, decl);
    lemma_first_edit(b, class, k);
    let body = lines(b.smali_edits@[k].modified@);
    law_declaring_line(body, decl, 0);
    match declaring_line(body, decl, 0) {
        Some(y) => {
            if y < x {
                assert(!declares(trimmed(body[y]), decl));
            } else if x < y {
                assert(!declares(trimmed(body[x]), decl));
            }
        },
        None => {
            assert(!declares(trimmed(body[x]), decl));
        },
    }
}

/// A method that the first staged edit of its class no longer declares is where the
/// index says.
pub proof fn law_method_that_was_edited_away(
    b: &LoadedBundle,
    class: Seq<char>,
    decl: Seq<char>,
    k: int,
)
    requires
        forall|i: int|
            0 <= i < class.len() ==> !#[trigger] stands_at(class + "->"@ + decl, "->"@, i),
        rewrites_any(b.smali_edits@, k, class),
        forall|j: int| 0 <= j < k ==> !#[trigger] rewrites_any(b.smali_edits@, j, class),
        forall|x: int| !#[trigger] first_declared(b.smali_edits@[k].modified@, decl, x),
    ensures
        b.method_line(class + "->"@ + decl) == as_loaded(b, class + "->"@ + decl),
{
    lemma_split(class, decl);
    lemma_first_edit(b, class, k);
    let text = b.smali_edits@[k].modified@;
    law_declaring_line(lines(text), decl, 0);
    if let Some(y) = declaring_line(lines(text), decl, 0) {
        assert(first_declared(text, decl, y));
    }
}

proof fn lemma_first_edit(b: &LoadedBundle, class: Seq<char>, k: int)
    requires
        rewrites_any(b.smali_edits@, k, class),
        forall|j: int| 0 <= j < k ==> !#[trigger] rewrites_any(b.smali_edits@, j, class),
    ensures
        smali_edit_of(b.smali_edits@, class, 0) == Some(k),
{
    law_class_edit(b.smali_edits@, Seq::empty(), class, 0);
    if let Some(q) = smali_edit_of(b.smali_edits@, class, 0) {
        if q < k {
            assert(!rewrites_any(b.smali_edits@, q, class));
        }
    }
}

proof fn lemma_split(class: Seq<char>, decl: Seq<char>)
    requires
        forall|i: int|
            0 <= i < class.len() ==> !#[trigger] stands_at(class + "->"@ + decl, "->"@, i),
    ensures
        ({
            let key = class + "->"@ + decl;
            &&& find_from(key, "->"@, 0) == Some(class.len() as int)
            &&& key.subrange(0, class.len() as int) == class
            &&& key.subrange((class.len() + "->"@.len()) as int, key.len() as int) == decl
        }),
{
    let key = class + "->"@ + decl;
    law_first_occurrence(key, "->"@, 0);
    assert(stands_at(key, "->"@, class.len() as int));
    assert(key.subrange(0, class.len() as int) =~= class);
    assert(key.subrange((class.len() + "->"@.len()) as int, key.len() as int) =~= decl);
    match find_from(key, "->"@, 0) {
        Some(at) => {
            if at < class.len() {
                assert(!stands_at(key, "->"@, at));
            }
        },
        None => {},
    }
}

/// Without `->` a key names no method.
pub proof fn law_key_without_arrow(b: &LoadedBundle, key: Seq<char>)
    requires
        forall|i: int| !#[trigger] stands_at(key, "->"@, i),
    ensures
        b.method_line(key) is None,
{
    law_first_occurrence(key, "->"@, 0);
    if let Some(at) = find_from(key, "->"@, 0) {
        assert(stands_at(key, "->"@, at));
    }
}

} // verus!

//! Staged edits: replaced bytes of native artifacts and replaced smali classes.

use crate::ids::ArtifactId;
use vstd::prelude::*;

verus! {

/// Replacement bytes at one address of an artifact.
#[derive(Debug)]
pub struct StagedEdit {
    pub artifact: ArtifactId,
    pub vaddr: u64,
    pub original_bytes: Vec<u8>,
    pub new_bytes: Vec<u8>,
    /// How many bytes after the original ones the edit has taken over.
    pub absorbed_following: u64,
}

impl StagedEdit {
    /// Whether this is the edit of `artifact` at `addr`.
    pub open spec fn is_at(self, artifact: Seq<u8>, addr: u64) -> bool {
        self.artifact@ == artifact && self.vaddr == addr
    }

    /// Whether the replacement bytes reach over `addr`.
    pub open spec fn reaches(self, artifact: Seq<u8>, addr: u64) -> bool {
        self.artifact@ == artifact && self.vaddr <= addr && addr - self.vaddr
            < self.new_bytes@.len()
    }
}

/// The first edit from position `i` on that is at `addr`.
pub open spec fn edit_at(edits: Seq<StagedEdit>, artifact: Seq<u8>, addr: u64, i: int) -> Option<int>
    decreases edits.len() - i,
{
    if i >= edits.len() {
        None
    } else if edits[i].is_at(artifact, addr) {
        Some(i)
    } else {
        edit_at(edits, artifact, addr, i + 1)
    }
}

/// The first edit from position `i` on that reaches over `addr`.
pub open spec fn edit_over(edits: Seq<StagedEdit>, artifact: Seq<u8>, addr: u64, i: int) -> Option<int>
    decreases edits.len() - i,
{
    if i >= edits.len() {
        None
    } else if edits[i].reaches(artifact, addr) {
        Some(i)
    } else {
        edit_over(edits, artifact, addr, i + 1)
    }
}

/// No two edits are at the same address of the same artifact.
pub open spec fn edits_distinct(edits: Seq<StagedEdit>) -> bool {
    forall|i: int, j: int|
        0 <= i < j < edits.len() ==> !(#[trigger] edits[i]).is_at(
            (#[trigger] edits[j]).artifact@,
            edits[j].vaddr,
        )
}

/// The staged byte edits of a bundle, one per artifact and address.
#[derive(Debug)]
pub struct EditRegistry {
    edits: Vec<StagedEdit>,
}

impl View for EditRegistry {
    type V = Seq<StagedEdit>;

    closed spec fn view(&self) -> Seq<StagedEdit> {
        self.edits@
    }
}

proof fn lemma_edit_at(edits: Seq<StagedEdit>, artifact: Seq<u8>, addr: u64, i: int)
    requires
        0 <= i,
    ensures
        match edit_at(edits, artifact, addr, i) {
            Some(k) => i <= k < edits.len() && edits[k].is_at(artifact, addr),
            None => forall|k: int| i <= k < edits.len() ==> !(#[trigger] edits[k]).is_at(artifact, addr),
        },
    decreases edits.len() - i,
{
    if i < edits.len() && !edits[i].is_at(artifact, addr) {
        lemma_edit_at(edits, artifact, addr, i + 1);
    }
}

impl EditRegistry {
    /// No edit.
    pub fn new() -> (r: EditRegistry)
        ensures
            r@ == Seq::<StagedEdit>::empty(),
    {
        EditRegistry { edits: Vec::new() }
    }

    fn position(&self, artifact: &ArtifactId, addr: u64) -> (r: Option<usize>)
        ensures
            match r {
                Some(k) => edit_at(self@, artifact@, addr, 0) == Some(k as int) && k < self@.len(),
                None => edit_at(self@, artifact@, addr, 0) is None,
            },
    {
        let mut i: usize = 0;
        while i < self.edits.len()
            invariant
                i <= self.edits@.len(),
                edit_at(self@, artifact@, addr, 0) == edit_at(self@, artifact@, addr, i as int),
            decreases self.edits@.len() - i,
        {
            if self.edits[i].artifact.same(artifact) && self.edits[i].vaddr == addr {
                return Some(i);
            }
            i += 1;
        }
        None
    }

    /// Stages an edit; one already at its address is replaced in place.
    pub fn stage(&mut self, edit: StagedEdit)
        requires
            edits_distinct(old(self)@),
        ensures
            edits_distinct(final(self)@),
            match edit_at(old(self)@, edit.artifact@, edit.vaddr, 0) {
                Some(k) => final(self)@ == old(self)@.update(k, edit),
                None => final(self)@ == old(self)@.push(edit),
            },
    {
        proof {
            lemma_edit_at(self@, edit.artifact@, edit.vaddr, 0);
        }
        match self.position(&edit.artifact, edit.vaddr) {
            Some(k) => {
                self.edits.set(k, edit);
            },
            None => {
                self.edits.push(edit);
            },
        }
    }

    /// The edit at `addr`.
    pub fn get(&self, artifact: &ArtifactId, addr: u64) -> (r: Option<&StagedEdit>)
        ensures
            match r {
                Some(e) => match edit_at(self@, artifact@, addr, 0) {
                    Some(k) => *e == self@[k],
                    None => false,
                },
                None => edit_at(self@, artifact@, addr, 0) is None,
            },
    {
        match self.position(artifact, addr) {
            Some(k) => Some(&self.edits[k]),
            None => None,
        }
    }

    /// The first edit whose replacement bytes reach over `addr`.
    pub fn covering(&self, artifact: &ArtifactId, addr: u64) -> (r: Option<&StagedEdit>)
        ensures
            match r {
                Some(e) => match edit_over(self@, artifact@, addr, 0) {
                    Some(k) => *e == self@[k] && e.reaches(artifact@, addr),
                    None => false,
                },
                None => edit_over(self@, artifact@, addr, 0) is None,
            },
    {
        let mut i: usize = 0;
        while i < self.edits.len()
            invariant
                i <= self.edits@.len(),
                edit_over(self@, artifact@, addr, 0) == edit_over(self@, artifact@, addr, i as int),
            decreases self.edits@.len() - i,
        {
            let e = &self.edits[i];
            let len: usize = e.new_bytes.len();
            if e.artifact.same(artifact) && e.vaddr <= addr && addr - e.vaddr < len as u64 {
                return Some(e);
            }
            i += 1;
        }
        None
    }

    /// The staged edits.
    pub fn entries(&self) -> (r: &Vec<StagedEdit>)
        ensures
            r@ == self@,
    {
        &self.edits
    }
}

/// A staged edit is found at its address, whatever was staged there before.
pub proof fn law_staged_edit_is_found(before: Seq<StagedEdit>, edit: StagedEdit)
    ensures
        ({
            let after = match edit_at(before, edit.artifact@, edit.vaddr, 0) {
                Some(k) => before.update(k, edit),
                None => before.push(edit),
            };
            match edit_at(after, edit.artifact@, edit.vaddr, 0) {
                Some(k) => after[k] == edit,
                None => false,
            }
        }),
{
    lemma_edit_at(before, edit.artifact@, edit.vaddr, 0);
    let a = edit.artifact@;
    match edit_at(before, a, edit.vaddr, 0) {
        Some(k) => {
            let after = before.update(k, edit);
            lemma_first_edit(before, a, edit.vaddr, 0);
            lemma_edit_at_first(after, a, edit.vaddr, 0, k);
        },
        None => {
            let after = before.push(edit);
            lemma_edit_at_first(after, a, edit.vaddr, 0, before.len() as int);
        },
    }
}

proof fn lemma_first_edit(edits: Seq<StagedEdit>, artifact: Seq<u8>, addr: u64, i: int)
    requires
        0 <= i,
        edit_at(edits, artifact, addr, i) is Some,
    ensures
        forall|k: int|
            i <= k < edit_at(edits, artifact, addr, i)->0 ==> !(#[trigger] edits[k]).is_at(
                artifact,
                addr,
            ),
    decreases edits.len() - i,
{
    if i < edits.len() && !edits[i].is_at(artifact, addr) {
        lemma_first_edit(edits, artifact, addr, i + 1);
    }
}

proof fn lemma_edit_at_first(edits: Seq<StagedEdit>, artifact: Seq<u8>, addr: u64, i: int, k: int)
    requires
        0 <= i <= k < edits.len(),
        edits[k].is_at(artifact, addr),
        forall|j: int| i <= j < k ==> !(#[trigger] edits[j]).is_at(artifact, addr),
    ensures
        edit_at(edits, artifact, addr, i) == Some(k),
    decreases k - i,
{
    if i < k {
        lemma_edit_at_first(edits, artifact, addr, i + 1, k);
    }
}

// ---- smali edits -----------------------------------------------------------

/// A replaced smali class.
#[derive(Debug)]
pub struct SmaliEdit {
    pub artifact: ArtifactId,
    pub class_jni: String,
    /// The modified class as smali text.
    pub modified: String,
}

impl SmaliEdit {
    /// Whether this edits that class of that artifact.
    pub open spec fn is_for(self, artifact: Seq<u8>, class: Seq<char>) -> bool {
        self.artifact@ == artifact && self.class_jni@ == class
    }
}

/// The first edit from position `i` on of that class of that artifact.
pub open spec fn smali_edit_for(
    edits: Seq<SmaliEdit>,
    artifact: Seq<u8>,
    class: Seq<char>,
    i: int,
) -> Option<int>
    decreases edits.len() - i,
{
    if i >= edits.len() {
        None
    } else if edits[i].is_for(artifact, class) {
        Some(i)
    } else {
        smali_edit_for(edits, artifact, class, i + 1)
    }
}

/// The first edit from position `i` on of that class, in whatever artifact.
pub open spec fn smali_edit_of(edits: Seq<SmaliEdit>, class: Seq<char>, i: int) -> Option<int>
    decreases edits.len() - i,
{
    if i >= edits.len() {
        None
    } else if edits[i].class_jni@ == class {
        Some(i)
    } else {
        smali_edit_of(edits, class, i + 1)
    }
}

/// The staged class edits of a bundle, one per artifact and class.
#[derive(Debug)]
pub struct SmaliEditRegistry {
    edits: Vec<SmaliEdit>,
}

impl View for SmaliEditRegistry {
    type V = Seq<SmaliEdit>;

    closed spec fn view(&self) -> Seq<SmaliEdit> {
        self.edits@
    }
}

impl SmaliEditRegistry {
    /// No edit.
    pub fn new() -> (r: SmaliEditRegistry)
        ensures
            r@ == Seq::<SmaliEdit>::empty(),
    {
        SmaliEditRegistry { edits: Vec::new() }
    }

    fn position(&self, artifact: &ArtifactId, class_jni: &String) -> (r: Option<usize>)
        ensures
            match r {
                Some(k) => smali_edit_for(self@, artifact@, class_jni@, 0) == Some(k as int) && k
                    < self@.len(),
                None => smali_edit_for(self@, artifact@, class_jni@, 0) is None,
            },
    {
        let mut i: usize = 0;
        while i < self.edits.len()
            invariant
                i <= self.edits@.len(),
                smali_edit_for(self@, artifact@, class_jni@, 0) == smali_edit_for(
                    self@,
                    artifact@,
                    class_jni@,
                    i as int,
                ),
            decreases self.edits@.len() - i,
        {
            if self.edits[i].artifact.same(artifact) && self.edits[i].class_jni == *class_jni {
                return Some(i);
            }
            i += 1;
        }
        None
    }

    /// Stages a class; an edit of the same class is replaced in place.
    pub fn stage(&mut self, edit: SmaliEdit)
        ensures
            match smali_edit_for(old(self)@, edit.artifact@, edit.class_jni@, 0) {
                Some(k) => final(self)@ == old(self)@.update(k, edit),
                None => final(self)@ == old(self)@.push(edit),
            },
    {
        match self.position(&edit.artifact, &edit.class_jni) {
            Some(k) => {
                self.edits.set(k, edit);
            },
            None => {
                self.edits.push(edit);
            },
        }
    }

    /// The edit of that class.
    pub fn get(&self, artifact: &ArtifactId, class_jni: &String) -> (r: Option<&SmaliEdit>)
        ensures
            match r {
                Some(e) => match smali_edit_for(self@, artifact@, class_jni@, 0) {
                    Some(k) => *e == self@[k],
                    None => false,
                },
                None => smali_edit_for(self@, artifact@, class_jni@, 0) is None,
            },
    {
        match self.position(artifact, class_jni) {
            Some(k) => Some(&self.edits[k]),
            None => None,
        }
    }

    /// The first edit of that class, in whatever artifact.
    pub fn of_class(&self, class_jni: &String) -> (r: Option<&SmaliEdit>)
        ensures
            match r {
                Some(e) => match smali_edit_of(self@, class_jni@, 0) {
                    Some(k) => *e == self@[k],
                    None => false,
                },
                None => smali_edit_of(self@, class_jni@, 0) is None,
            },
    {
        let mut i: usize = 0;
        while i < self.edits.len()
            invariant
                i <= self.edits@.len(),
                smali_edit_of(self@, class_jni@, 0) == smali_edit_of(
                    self@,
                    class_jni@,
                    i as int,
                ),
            decreases self.edits@.len() - i,
        {
            if self.edits[i].class_jni == *class_jni {
                return Some(&self.edits[i]);
            }
            i += 1;
        }
        None
    }

    /// The staged edits.
    pub fn entries(&self) -> (r: &Vec<SmaliEdit>)
        ensures
            r@ == self@,
    {
        &self.edits
    }
}

} // verus!

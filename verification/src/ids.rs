//! Content-derived identities of artifacts and bundles.

use crate::order::{lex_before_from, Rank};
use vstd::prelude::*;

verus! {

/// The 32-byte BLAKE3 digest of `input`.
pub uninterp spec fn blake3_digest(input: Seq<u8>) -> Seq<u8>;

/// `blake3::hash` returns the BLAKE3 digest of its input, which depends on the
/// input alone; which bytes the digest holds is not stated.
#[verifier::external_body]
fn blake3_hash(input: &[u8]) -> (r: [u8; 32])
    ensures
        r@ == blake3_digest(input@),
{
    *blake3::hash(input).as_bytes()
}

/// Identity of one artifact: the digest of its bytes.
#[derive(Clone, Copy, Debug)]
pub struct ArtifactId {
    raw: [u8; 32],
}

impl View for ArtifactId {
    type V = Seq<u8>;

    closed spec fn view(&self) -> Seq<u8> {
        self.raw@
    }
}

impl ArtifactId {
    /// The identity with the given bytes.
    pub fn from_raw(raw: [u8; 32]) -> (r: ArtifactId)
        ensures
            r@ == raw@,
    {
        ArtifactId { raw }
    }

    /// The identity of an artifact with the given contents.
    pub fn from_bytes(contents: &[u8]) -> (r: ArtifactId)
        ensures
            r@ == blake3_digest(contents@),
    {
        ArtifactId { raw: blake3_hash(contents) }
    }

    /// The bytes of the identity.
    pub fn as_bytes(&self) -> (r: [u8; 32])
        ensures
            r@ == self@,
    {
        self.raw
    }

    /// Whether two identities are the same.
    pub fn same(&self, other: &ArtifactId) -> (r: bool)
        ensures
            r == (self@ == other@),
    {
        let mut i: usize = 0;
        while i < 32
            invariant
                i <= 32,
                self@.len() == 32,
                other@.len() == 32,
                forall|k: int| 0 <= k < i ==> self@[k] == other@[k],
            decreases 32 - i,
        {
            if self.raw[i] != other.raw[i] {
                assert(self@[i as int] != other@[i as int]);
                return false;
            }
            i += 1;
        }
        assert(self@ =~= other@);
        true
    }
}

impl Rank for ArtifactId {
    open spec fn before(a: Seq<u8>, b: Seq<u8>) -> bool {
        lex_before_from(a, b, 0)
    }

    proof fn irreflexive(a: Seq<u8>) {
        crate::order::lemma_lex_irreflexive(a, 0);
    }

    proof fn transitive(a: Seq<u8>, b: Seq<u8>, c: Seq<u8>) {
        crate::order::lemma_lex_transitive(a, b, c, 0);
    }

    proof fn total(a: Seq<u8>, b: Seq<u8>) {
        crate::order::lemma_lex_total(a, b, 0);
    }

    fn ranks_before(&self, other: &ArtifactId) -> (r: bool) {
        let mut i: usize = 0;
        while i < 32
            invariant
                i <= 32,
                self@.len() == 32,
                other@.len() == 32,
                lex_before_from(self@, other@, 0) == lex_before_from(self@, other@, i as int),
            decreases 32 - i,
        {
            assert(self.raw@[i as int] == self@[i as int]);
            assert(other.raw@[i as int] == other@[i as int]);
            if self.raw[i] != other.raw[i] {
                return self.raw[i] < other.raw[i];
            }
            i += 1;
        }
        false
    }

    fn duplicate(&self) -> (r: ArtifactId) {
        ArtifactId { raw: self.raw }
    }
}

/// Identity of a bundle.
#[derive(Clone, Copy, Debug)]
pub struct BundleId {
    raw: [u8; 32],
}

impl View for BundleId {
    type V = Seq<u8>;

    closed spec fn view(&self) -> Seq<u8> {
        self.raw@
    }
}

/// The bytes of the first `n` identities, one after the other.
pub open spec fn joined_ids(ids: Seq<ArtifactId>, n: int) -> Seq<u8>
    decreases n,
{
    if n <= 0 {
        Seq::empty()
    } else {
        joined_ids(ids, n - 1) + ids[n - 1]@
    }
}

impl BundleId {
    /// The identity with the given bytes.
    pub fn from_raw(raw: [u8; 32]) -> (r: BundleId)
        ensures
            r@ == raw@,
    {
        BundleId { raw }
    }

    /// The bytes of the identity.
    pub fn as_bytes(&self) -> (r: [u8; 32])
        ensures
            r@ == self@,
    {
        self.raw
    }

    /// The identity of a bundle of artifacts: the digest of their identities in
    /// order.
    pub fn of_artifacts(ids: &Vec<ArtifactId>) -> (r: BundleId)
        ensures
            r@ == blake3_digest(joined_ids(ids@, ids@.len() as int)),
    {
        let mut joined: Vec<u8> = Vec::new();
        let mut i: usize = 0;
        while i < ids.len()
            invariant
                i <= ids@.len(),
                joined@ == joined_ids(ids@, i as int),
            decreases ids@.len() - i,
        {
            let raw = ids[i].as_bytes();
            let mut k: usize = 0;
            while k < 32
                invariant
                    k <= 32,
                    raw@.len() == 32,
                    joined@ == joined_ids(ids@, i as int) + raw@.take(k as int),
                decreases 32 - k,
            {
                joined.push(raw[k]);
                k += 1;
            }
            assert(raw@.take(32) =~= raw@);
            i += 1;
        }
        BundleId { raw: blake3_hash(joined.as_slice()) }
    }
}

} // verus!

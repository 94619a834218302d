//! The native cross-reference index: which instruction refers to which address.

use crate::laws::listing::{address_of_insn, total_insns};
use crate::listing::WordInsn;
use crate::sections::{DataSectionBytes, DecodedInsn, NativeSectionKind, TextSectionBytes};
use crate::xref::{
    artifact_refs, code_chunks, data_chunks, first_word, indexes_natives, indexes_refs, insns_upto,
    pool_pointer, reads_artifact, refs_in_section, refs_of_insn, refs_of_word, refs_upto, scannable,
    some_contains, without_mode_bit, word_in, word_of, words_for, Chunk, DataPeek, NativeRef,
    NativeXrefMap, ScanPlace, SectionKey,
};
use std::sync::Arc;
use vstd::prelude::*;

verus! {

/// Code sections with their keys.
pub type Code = Seq<(SectionKey, TextSectionBytes)>;

/// Data sections with their keys.
pub type Data = Seq<(SectionKey, DataSectionBytes)>;

/// Decoded words by artifact and section.
pub type Words = Map<(Seq<u8>, Seq<char>), Arc<Vec<Option<WordInsn>>>>;

// ---- reading memory --------------------------------------------------------

/// A section of `bytes` at `base` holds the four bytes at `p`.
pub open spec fn holds_word(base: u64, bytes: Seq<u8>, p: u64) -> bool {
    base <= p && p - base + 4 <= bytes.len()
}

/// The little-endian number in the four bytes at `p`.
pub open spec fn word_at(base: u64, bytes: Seq<u8>, p: u64) -> int {
    bytes[p - base] + 0x100 * bytes[p - base + 1] + 0x1_0000 * bytes[p - base + 2] + 0x100_0000
        * bytes[p - base + 3]
}

/// A data section in which pointers are looked for: loaded, and neither
/// zero-filled nor debug information.
pub open spec fn is_read(d: DataSectionBytes) -> bool {
    d.base != 0 && (d.kind == NativeSectionKind::Text || d.kind == NativeSectionKind::Data || d.kind
        == NativeSectionKind::Rodata || d.kind == NativeSectionKind::Other)
}

/// Data section `x` of artifact `aid` is the first of its readable ones to hold
/// the word at `p`.
pub open spec fn data_holds(data: Data, aid: Seq<u8>, p: u64, x: int) -> bool {
    &&& 0 <= x < data.len()
    &&& data[x].0.0@ == aid && is_read(data[x].1) && holds_word(
        data[x].1.base,
        data[x].1.bytes@,
        p,
    )
    &&& forall|y: int|
        0 <= y < x && data[y].0.0@ == aid && is_read(data[y].1) ==> !holds_word(
            (#[trigger] data[y]).1.base,
            data[y].1.bytes@,
            p,
        )
}

/// Code section `x` of artifact `aid` is its first one to hold the word at `p`.
pub open spec fn code_holds(text: Code, aid: Seq<u8>, p: u64, x: int) -> bool {
    &&& 0 <= x < text.len()
    &&& text[x].0.0@ == aid && holds_word(text[x].1.base, text[x].1.bytes@, p)
    &&& forall|y: int|
        0 <= y < x && text[y].0.0@ == aid ==> !holds_word(
            (#[trigger] text[y]).1.base,
            text[y].1.bytes@,
            p,
        )
}

/// The word at `p` of artifact `aid` is `w`: it is read from a data section, or
/// from a code section where no data section holds it.
pub open spec fn reads(text: Code, data: Data, aid: Seq<u8>, p: u64, w: int) -> bool {
    ||| exists|x: int| #[trigger]
        data_holds(data, aid, p, x) && w == word_at(data[x].1.base, data[x].1.bytes@, p)
    ||| (forall|x: int| !#[trigger] data_holds(data, aid, p, x)) && exists|x: int| #[trigger]
        code_holds(text, aid, p, x) && w == word_at(text[x].1.base, text[x].1.bytes@, p)
}

/// A readable data section of artifact `aid` contains `a`.
pub open spec fn leads_into_data(data: Data, aid: Seq<u8>, a: u64) -> bool {
    exists|x: int|
        {
            &&& 0 <= x < data.len()
            &&& (#[trigger] data[x]).0.0@ == aid
            &&& is_read(data[x].1)
            &&& data[x].1.base <= a
            &&& a - data[x].1.base < data[x].1.bytes@.len()
        }
}

// ---- references ------------------------------------------------------------

/// A decoded word refers to `a`: as its operand, or as the address that it
/// completes together with earlier words.
pub open spec fn word_refers(w: WordInsn, a: u64) -> bool {
    w.address_operand == Some(a) || w.fused_target == Some(a)
}

/// An instruction decoded ahead of time refers to `a`: it branches there (the
/// mode bit aside), completes that address, loads from it, or loads a pointer to
/// it that leads into a data section.
pub open spec fn insn_refers(text: Code, data: Data, aid: Seq<u8>, d: DecodedInsn, a: u64) -> bool {
    ||| d.branch_target matches Some(b) && a == b - b % 2
    ||| d.fused_target == Some(a)
    ||| d.pcrel_target == Some(a)
    ||| d.pcrel_target matches Some(p) && a != 0 && reads(text, data, aid, p, a as int)
        && leads_into_data(data, aid, a)
}

/// Instruction `i` of section `e` refers to `a`.
pub open spec fn refers(text: Code, data: Data, decoded: Words, e: int, i: int, a: u64) -> bool {
    let key = (text[e].0.0@, text[e].0.1@);
    match text[e].1.precomputed {
        Some(p) => insn_refers(text, data, text[e].0.0@, p@[i], a),
        None => decoded.contains_key(key) && i < decoded[key]@.len() && (
        decoded[key]@[i] matches Some(w) && word_refers(w, a)),
    }
}

/// The index lists `site` among the places that refer to `a`.
pub open spec fn lists(m: NativeXrefMap, a: u64, site: int) -> bool {
    m@.contains_key(a) && exists|x: int| 0 <= x < m@[a]@.len() && (#[trigger] m@[a]@[x]) == site
}

// ---- proofs ----------------------------------------------------------------

proof fn lemma_word_in(base: u64, bytes: Seq<u8>, p: u64)
    ensures
        word_in(base, bytes, p) is Some <==> holds_word(base, bytes, p),
        holds_word(base, bytes, p) ==> word_in(base, bytes, p)->0 == word_at(base, bytes, p),
{
}

proof fn lemma_first_word_push(s: Seq<Chunk>, c: Chunk, p: u64, i: int)
    requires
        0 <= i <= s.len(),
    ensures
        first_word(s.push(c), p, i) == (match first_word(s, p, i) {
            Some(w) => Some(w),
            None => word_in(c.0, c.1@, p),
        }),
    decreases s.len() - i,
{
    if i < s.len() {
        assert(s.push(c)[i] == s[i]);
        lemma_first_word_push(s, c, p, i + 1);
    } else {
        assert(s.push(c)[i] == c);
        assert(first_word(s.push(c), p, i + 1) is None);
    }
}

spec fn data_upto(data: Data, aid: Seq<u8>, p: u64, n: int, w: Option<u32>) -> bool {
    match w {
        Some(w) => exists|x: int| #[trigger]
            data_holds(data, aid, p, x) && x < n && w == word_at(
                data[x].1.base,
                data[x].1.bytes@,
                p,
            ),
        None => forall|y: int|
            0 <= y < n && (#[trigger] data[y]).0.0@ == aid && is_read(data[y].1) ==> !holds_word(
                data[y].1.base,
                data[y].1.bytes@,
                p,
            ),
    }
}

proof fn lemma_data_word(data: Data, aid: Seq<u8>, p: u64, n: int)
    requires
        0 <= n <= data.len(),
    ensures
        data_upto(data, aid, p, n, first_word(data_chunks(data, aid, n), p, 0)),
    decreases n,
{
    if n > 0 {
        lemma_data_word(data, aid, p, n - 1);
        let before = data_chunks(data, aid, n - 1);
        let d = data[n - 1].1;
        lemma_word_in(d.base, d.bytes@, p);
        if data[n - 1].0.0@ == aid && is_read(d) {
            lemma_first_word_push(before, (d.base, d.bytes), p, 0);
            if first_word(before, p, 0) is None && holds_word(d.base, d.bytes@, p) {
                assert(data_holds(data, aid, p, n - 1));
            }
        }
        match first_word(before, p, 0) {
            Some(w) => {
                let x = choose|x: int| #[trigger]
                    data_holds(data, aid, p, x) && x < n - 1 && w == word_at(
                        data[x].1.base,
                        data[x].1.bytes@,
                        p,
                    );
                assert(data_holds(data, aid, p, x) && x < n);
            },
            None => {},
        }
    }
}

spec fn code_upto(text: Code, aid: Seq<u8>, p: u64, n: int, w: Option<u32>) -> bool {
    match w {
        Some(w) => exists|x: int| #[trigger]
            code_holds(text, aid, p, x) && x < n && w == word_at(
                text[x].1.base,
                text[x].1.bytes@,
                p,
            ),
        None => forall|y: int|
            0 <= y < n && (#[trigger] text[y]).0.0@ == aid ==> !holds_word(
                text[y].1.base,
                text[y].1.bytes@,
                p,
            ),
    }
}

proof fn lemma_code_word(text: Code, aid: Seq<u8>, p: u64, n: int)
    requires
        0 <= n <= text.len(),
    ensures
        code_upto(text, aid, p, n, first_word(code_chunks(text, aid, n), p, 0)),
    decreases n,
{
    if n > 0 {
        lemma_code_word(text, aid, p, n - 1);
        let before = code_chunks(text, aid, n - 1);
        let t = text[n - 1].1;
        lemma_word_in(t.base, t.bytes@, p);
        if text[n - 1].0.0@ == aid {
            lemma_first_word_push(before, (t.base, t.bytes), p, 0);
            if first_word(before, p, 0) is None && holds_word(t.base, t.bytes@, p) {
                assert(code_holds(text, aid, p, n - 1));
            }
        }
        match first_word(before, p, 0) {
            Some(w) => {
                let x = choose|x: int| #[trigger]
                    code_holds(text, aid, p, x) && x < n - 1 && w == word_at(
                        text[x].1.base,
                        text[x].1.bytes@,
                        p,
                    );
                assert(code_holds(text, aid, p, x) && x < n);
            },
            None => {},
        }
    }
}

/// What the sections of an artifact read at an address.
proof fn lemma_peek_reads(peek: DataPeek, text: Code, data: Data, aid: Seq<u8>, p: u64, w: int)
    requires
        reads_artifact(peek, text, data, aid),
    ensures
        reads(text, data, aid, p, w) <==> peek.word(p) is Some && peek.word(p)->0 == w,
{
    lemma_data_word(data, aid, p, data.len() as int);
    lemma_code_word(text, aid, p, text.len() as int);
    assert forall|x: int, y: int|
        #[trigger] data_holds(data, aid, p, x) && #[trigger] data_holds(data, aid, p, y) implies x
        == y by {
        if x < y {
            assert(!holds_word(data[x].1.base, data[x].1.bytes@, p));
        } else if y < x {
            assert(!holds_word(data[y].1.base, data[y].1.bytes@, p));
        }
    }
    assert forall|x: int, y: int|
        #[trigger] code_holds(text, aid, p, x) && #[trigger] code_holds(text, aid, p, y) implies x
        == y by {
        if x < y {
            assert(!holds_word(text[x].1.base, text[x].1.bytes@, p));
        } else if y < x {
            assert(!holds_word(text[y].1.base, text[y].1.bytes@, p));
        }
    }
}

proof fn lemma_chunks_contain(data: Data, aid: Seq<u8>, n: int, a: u64)
    requires
        0 <= n <= data.len(),
    ensures
        some_contains(data_chunks(data, aid, n), a) <==> exists|x: int|
            {
                &&& 0 <= x < n
                &&& (#[trigger] data[x]).0.0@ == aid
                &&& is_read(data[x].1)
                &&& data[x].1.base <= a
                &&& a - data[x].1.base < data[x].1.bytes@.len()
            },
    decreases n,
{
    if n > 0 {
        lemma_chunks_contain(data, aid, n - 1, a);
        let before = data_chunks(data, aid, n - 1);
        let now = data_chunks(data, aid, n);
        let d = data[n - 1].1;
        if some_contains(before, a) {
            let i = choose|i: int|
                0 <= i < before.len() && (#[trigger] before[i]).0 <= a && a - before[i].0
                    < before[i].1@.len();
            assert(now[i] == before[i]);
        }
        if some_contains(now, a) {
            let i = choose|i: int|
                0 <= i < now.len() && (#[trigger] now[i]).0 <= a && a - now[i].0 < now[i].1@.len();
            if i < before.len() {
                assert(before[i] == now[i]);
            } else {
                assert(data[n - 1].0.0@ == aid);
            }
        }
        if data[n - 1].0.0@ == aid && is_read(d) && d.base <= a && a - d.base < d.bytes@.len() {
            assert(now[before.len() as int] == (d.base, d.bytes));
        }
    } else {
        assert(data_chunks(data, aid, n) =~= Seq::empty());
    }
}

proof fn lemma_insn_refs(peek: DataPeek, text: Code, data: Data, aid: Seq<u8>, d: DecodedInsn, a: u64)
    requires
        reads_artifact(peek, text, data, aid),
    ensures
        insn_refers(text, data, aid, d, a) <==> refs_of_insn(d, peek).contains(
            NativeRef { target: a, site: d.address },
        ),
        forall|k: int|
            0 <= k < refs_of_insn(d, peek).len() ==> (#[trigger] refs_of_insn(d, peek)[k]).site
                == d.address,
{
    let refs = refs_of_insn(d, peek);
    let r = NativeRef { target: a, site: d.address };
    match d.branch_target {
        Some(b) => {
            assert(b & !1u64 == b - b % 2) by (bit_vector);
        },
        None => {},
    }
    match d.pcrel_target {
        Some(p) => {
            lemma_peek_reads(peek, text, data, aid, p, a as int);
            lemma_chunks_contain(data, aid, data.len() as int, a);
            assert(some_contains(peek.sections@, a) <==> leads_into_data(data, aid, a));
            assert(pool_pointer(peek, p) == Some(a) <==> a != 0 && reads(
                text,
                data,
                aid,
                p,
                a as int,
            ) && leads_into_data(data, aid, a));
        },
        None => {},
    }
    let nb: int = if d.branch_target is Some {
        1
    } else {
        0
    };
    let nf: int = if d.fused_target is Some {
        1
    } else {
        0
    };
    if d.branch_target is Some {
        assert(refs[0] == (NativeRef {
            target: without_mode_bit(d.branch_target->0),
            site: d.address,
        }));
    }
    if d.fused_target is Some {
        assert(refs[nb] == (NativeRef { target: d.fused_target->0, site: d.address }));
    }
    if d.pcrel_target is Some {
        assert(refs[nb + nf] == (NativeRef { target: d.pcrel_target->0, site: d.address }));
        if pool_pointer(peek, d.pcrel_target->0) is Some {
            assert(refs[nb + nf + 1] == (NativeRef {
                target: pool_pointer(peek, d.pcrel_target->0)->0,
                site: d.address,
            }));
        }
    }
    if refs.contains(r) {
        let k = choose|k: int| 0 <= k < refs.len() && refs[k] == r;
    }
}

proof fn lemma_word_refs(w: Option<WordInsn>, site: u64, a: u64)
    ensures
        (w matches Some(x) && word_refers(x, a)) <==> refs_of_word(w, site).contains(
            NativeRef { target: a, site },
        ),
        forall|k: int|
            0 <= k < refs_of_word(w, site).len() ==> (#[trigger] refs_of_word(w, site)[k]).site
                == site,
{
    let refs = refs_of_word(w, site);
    match w {
        Some(x) => {
            if x.address_operand is Some {
                assert(refs[0] == (NativeRef { target: x.address_operand->0, site }));
                if x.fused_target is Some {
                    assert(refs[1] == (NativeRef { target: x.fused_target->0, site }));
                }
            } else if x.fused_target is Some {
                assert(refs[0] == (NativeRef { target: x.fused_target->0, site }));
            }
        },
        None => {},
    }
}

spec fn scanned_refers(
    text: Code,
    data: Data,
    decoded: Words,
    e: int,
    n: int,
    r: NativeRef,
) -> bool {
    exists|i: int|
        0 <= i < n && #[trigger] refers(text, data, decoded, e, i, r.target) && address_of_insn(
            text[e].1,
            i,
        ) == r.site
}

proof fn lemma_section_refs(
    peek: DataPeek,
    text: Code,
    data: Data,
    decoded: Words,
    e: int,
    n: int,
    r: NativeRef,
)
    requires
        0 <= e < text.len(),
        0 <= n <= total_insns(text[e].1),
        forall|i: int|
            0 <= i < total_insns(text[e].1) ==> #[trigger] address_of_insn(text[e].1, i) <= u64::MAX,
        reads_artifact(peek, text, data, text[e].0.0@),
    ensures
        refs_in_section(text[e].1, words_for(decoded, text[e].0), peek, n).contains(r)
            <==> scanned_refers(text, data, decoded, e, n, r),
    decreases n,
{
    let t = text[e].1;
    let words = words_for(decoded, text[e].0);
    let now = refs_in_section(t, words, peek, n);
    if n > 0 {
        lemma_section_refs(peek, text, data, decoded, e, n - 1, r);
        let before = refs_in_section(t, words, peek, n - 1);
        let site = address_of_insn(t, n - 1);
        assert(site <= u64::MAX);
        let added = match t.precomputed {
            Some(p) => refs_of_insn(p@[n - 1], peek),
            None => refs_of_word(word_of(words, n - 1), t.insn_addr(n - 1) as u64),
        };
        assert(now =~= before + added);
        match t.precomputed {
            Some(p) => {
                lemma_insn_refs(peek, text, data, text[e].0.0@, p@[n - 1], r.target);
            },
            None => {
                lemma_word_refs(word_of(words, n - 1), site as u64, r.target);
            },
        }
        let here = NativeRef { target: r.target, site: site as u64 };
        assert(added.contains(here) <==> refers(text, data, decoded, e, n - 1, r.target));
        if before.contains(r) {
            let k = choose|k: int| 0 <= k < before.len() && before[k] == r;
            assert(now[k] == r);
            let i = choose|i: int|
                0 <= i < n - 1 && #[trigger] refers(text, data, decoded, e, i, r.target)
                    && address_of_insn(t, i) == r.site;
            assert(refers(text, data, decoded, e, i, r.target));
        }
        if added.contains(r) {
            let k = choose|k: int| 0 <= k < added.len() && added[k] == r;
            assert(now[before.len() + k] == r);
            assert(added[k].site == site);
            assert(refers(text, data, decoded, e, n - 1, r.target));
        }
        if now.contains(r) {
            let k = choose|k: int| 0 <= k < now.len() && now[k] == r;
            if k < before.len() {
                assert(before[k] == r);
            } else {
                assert(added[k - before.len()] == r);
            }
        }
        if scanned_refers(text, data, decoded, e, n, r) {
            let i = choose|i: int|
                0 <= i < n && #[trigger] refers(text, data, decoded, e, i, r.target)
                    && address_of_insn(t, i) == r.site;
            if i == n - 1 {
                assert(here == r);
            } else {
                assert(scanned_refers(text, data, decoded, e, n - 1, r));
            }
        }
    } else {
        assert(now =~= Seq::empty());
    }
}

spec fn artifact_refers(
    text: Code,
    data: Data,
    decoded: Words,
    aid: Seq<u8>,
    n: int,
    r: NativeRef,
) -> bool {
    exists|e: int|
        {
            &&& 0 <= e < n
            &&& (#[trigger] text[e]).0.0@ == aid
            &&& scanned_refers(text, data, decoded, e, total_insns(text[e].1), r)
        }
}

proof fn lemma_artifact_refs(
    peek: DataPeek,
    text: Code,
    data: Data,
    decoded: Words,
    aid: Seq<u8>,
    n: int,
    r: NativeRef,
)
    requires
        0 <= n <= text.len(),
        forall|e: int, i: int|
            0 <= e < text.len() && 0 <= i < total_insns(text[e].1)
                ==> #[trigger] address_of_insn(text[e].1, i) <= u64::MAX,
        reads_artifact(peek, text, data, aid),
    ensures
        refs_upto(text, decoded, peek, aid, n).contains(r) <==> artifact_refers(
            text,
            data,
            decoded,
            aid,
            n,
            r,
        ),
    decreases n,
{
    let now = refs_upto(text, decoded, peek, aid, n);
    if n > 0 {
        lemma_artifact_refs(peek, text, data, decoded, aid, n - 1, r);
        let before = refs_upto(text, decoded, peek, aid, n - 1);
        if text[n - 1].0.0@ == aid {
            let m = total_insns(text[n - 1].1);
            lemma_section_refs(peek, text, data, decoded, n - 1, m, r);
            let added = refs_in_section(
                text[n - 1].1,
                words_for(decoded, text[n - 1].0),
                peek,
                m,
            );
            assert(now =~= before + added);
            if before.contains(r) {
                let k = choose|k: int| 0 <= k < before.len() && before[k] == r;
                assert(now[k] == r);
            }
            if added.contains(r) {
                let k = choose|k: int| 0 <= k < added.len() && added[k] == r;
                assert(now[before.len() + k] == r);
                assert(text[n - 1].0.0@ == aid);
            }
            if now.contains(r) {
                let k = choose|k: int| 0 <= k < now.len() && now[k] == r;
                if k < before.len() {
                    assert(before[k] == r);
                } else {
                    assert(added[k - before.len()] == r);
                }
            }
        }
    } else {
        assert(now =~= Seq::empty());
    }
}

/// The finished index lists an instruction under an address exactly if it is an
/// instruction of the artifact that refers to that address.
pub proof fn law_index_lists_exactly_the_references(
    m: Map<Seq<u8>, NativeXrefMap>,
    text: Code,
    data: Data,
    decoded: Words,
    aid: Seq<u8>,
    a: u64,
    site: u64,
)
    requires
        indexes_natives(m, text, data, decoded),
        forall|e: int, i: int|
            0 <= e < text.len() && 0 <= i < total_insns(text[e].1)
                ==> #[trigger] address_of_insn(text[e].1, i) <= u64::MAX,
    ensures
        m.contains_key(aid) <==> exists|e: int|
            0 <= e < text.len() && (#[trigger] text[e]).0.0@ == aid,
        m.contains_key(aid) ==> (lists(m[aid], a, site as int) <==> exists|e: int, i: int|
            {
                &&& 0 <= e < text.len()
                &&& text[e].0.0@ == aid
                &&& 0 <= i < total_insns(text[e].1)
                &&& #[trigger] refers(text, data, decoded, e, i, a)
                &&& address_of_insn(text[e].1, i) == site
            }),
        m.contains_key(aid) && m[aid]@.contains_key(a) ==> m[aid]@[a]@.len() > 0 && forall|
            x: int,
            y: int,
        |
            0 <= x < y < m[aid]@[a]@.len() ==> (#[trigger] m[aid]@[a]@[x]) < (
            #[trigger] m[aid]@[a]@[y]),
{
    if m.contains_key(aid) {
        let map = m[aid]@;
        let peek = choose|peek: DataPeek| #[trigger]
            reads_artifact(peek, text, data, aid) && indexes_refs(
                map,
                artifact_refs(text, data, decoded, peek, aid),
            );
        let refs = artifact_refs(text, data, decoded, peek, aid);
        let r = NativeRef { target: a, site };
        lemma_artifact_refs(peek, text, data, decoded, aid, text.len() as int, r);
        if lists(m[aid], a, site as int) {
            assert(map[a]@.contains(site));
            let i = choose|i: int|
                0 <= i < refs.len() && (#[trigger] refs[i]).target == a && refs[i].site == site;
            assert(refs[i] == r);
            let e = choose|e: int|
                {
                    &&& 0 <= e < text.len()
                    &&& (#[trigger] text[e]).0.0@ == aid
                    &&& scanned_refers(text, data, decoded, e, total_insns(text[e].1), r)
                };
            let k = choose|k: int|
                0 <= k < total_insns(text[e].1) && #[trigger] refers(text, data, decoded, e, k, a)
                    && address_of_insn(text[e].1, k) == site;
            assert(refers(text, data, decoded, e, k, a));
        }
        if exists|e: int, i: int|
            {
                &&& 0 <= e < text.len()
                &&& text[e].0.0@ == aid
                &&& 0 <= i < total_insns(text[e].1)
                &&& #[trigger] refers(text, data, decoded, e, i, a)
                &&& address_of_insn(text[e].1, i) == site
            } {
            let (e, i) = choose|e: int, i: int|
                {
                    &&& 0 <= e < text.len()
                    &&& text[e].0.0@ == aid
                    &&& 0 <= i < total_insns(text[e].1)
                    &&& #[trigger] refers(text, data, decoded, e, i, a)
                    &&& address_of_insn(text[e].1, i) == site
                };
            assert(refers(text, data, decoded, e, i, r.target));
            assert(scanned_refers(text, data, decoded, e, total_insns(text[e].1), r));
            assert(artifact_refers(text, data, decoded, aid, text.len() as int, r));
            let k = choose|k: int| 0 <= k < refs.len() && refs[k] == r;
            assert(refs[k].target == a && refs[k].site == site);
            assert(map[a]@.contains(site));
        }
        if map.contains_key(a) {
            let i = choose|i: int| 0 <= i < refs.len() && (#[trigger] refs[i]).target == a;
            assert(map[a]@.contains(refs[i].site));
            assert forall|x: int, y: int| 0 <= x < y < map[a]@.len() implies (
            #[trigger] map[a]@[x]) < (#[trigger] map[a]@[y]) by {}
        }
    }
}

/// How many instructions the first `n` sections hold.
pub open spec fn code_total(text: Code, n: int) -> int
    decreases n,
{
    if n <= 0 {
        0
    } else {
        code_total(text, n - 1) + total_insns(text[n - 1].1)
    }
}

/// Nothing but address space and countable instructions is asked of the sections
/// before they are scanned, and the count reported at the end is that of all
/// instructions.
pub proof fn law_ordinary_code_is_scanned(text: Code)
    requires
        forall|e: int, i: int|
            0 <= e < text.len() && 0 <= i < total_insns(text[e].1)
                ==> #[trigger] address_of_insn(text[e].1, i) <= u64::MAX,
        code_total(text, text.len() as int) <= usize::MAX,
    ensures
        scannable(text),
        insns_upto(text, text.len() as int) == code_total(text, text.len() as int),
{
    assert forall|e: int| 0 <= e < text.len() implies (#[trigger] text[e]).1.walkable() by {
        let t = text[e].1;
        if t.precomputed is None && t.bytes@.len() >= 4 {
            assert(address_of_insn(t, total_insns(t) - 1) <= u64::MAX);
        }
    }
    lemma_code_total(text, text.len() as int);
}

proof fn lemma_code_total(text: Code, n: int)
    requires
        0 <= n <= text.len(),
    ensures
        insns_upto(text, n) == code_total(text, n),
    decreases n,
{
    if n > 0 {
        lemma_code_total(text, n - 1);
    }
}

/// A report comes every 1024 instructions of a section and at its end, and tells the
/// number of instructions before the place where the scan stands.
pub proof fn law_native_reports(text: Code, at: ScanPlace)
    requires
        0 <= at.section < text.len(),
    ensures
        ({
            let next = at.next(text);
            let n = total_insns(text[at.section].1);
            &&& at.insn + 1024 < n ==> next.section == at.section && next.insn == at.insn + 1024
            &&& at.insn + 1024 >= n ==> next.section == at.section + 1 && next.insn == 0
            &&& at.counted(text) == code_total(text, at.section) + at.insn
        }),
{
    lemma_code_total(text, at.section);
}

} // verus!

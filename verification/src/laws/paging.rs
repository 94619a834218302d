//! Pages of a listing, and what the registers hold where they begin.

use crate::arrows::{segments, shows};
use crate::hex::hex_rows;
use crate::laws::listing::{row_arrows, total_insns};
use crate::listing::{
    first_target, first_x_register, prepass_facts, ArrowSegment, RegisterClass, WordInsn,
    WordOperand,
};
use crate::page_cache::{after_use, after_uses_down, after_uses_up};
use crate::paged_hex::PagedHex;
use crate::paged_listing::{
    arrows_on, drawn_rows, pages_for, records, tracker_upto, PageBaseSnapshot, PagedListing,
    PAGE_INSNS,
};
use vstd::prelude::*;

verus! {

// ---- registers -------------------------------------------------------------

/// Operand `q` of a word is 64-bit register `d`.
pub open spec fn is_register(w: WordInsn, q: int, d: u8) -> bool {
    &&& 0 <= q < w.operands@.len()
    &&& w.operands@[q] == (WordOperand::Register { class: RegisterClass::X, index: d })
        || w.operands@[q] == (WordOperand::Register { class: RegisterClass::XOrSp, index: d })
}

/// A word writes register `d`: it is the first of its 64-bit register operands.
pub open spec fn writes(w: Option<WordInsn>, d: u8) -> bool {
    &&& w is Some
    &&& exists|q: int| #[trigger]
        is_register(w->0, q, d) && forall|p: int, e: u8|
            0 <= p < q ==> !#[trigger] is_register(w->0, p, e)
}

/// A word loads the page address `a`: it is an instruction that loads one, and its
/// first target operand is `a`.
pub open spec fn loads_page(w: Option<WordInsn>, a: u64) -> bool {
    &&& w is Some
    &&& w->0.adrp
    &&& exists|q: int|
        {
            &&& 0 <= q < w->0.operands@.len()
            &&& #[trigger] w->0.operands@[q] == WordOperand::BranchTarget(a)
            &&& forall|p: int|
                0 <= p < q ==> !(#[trigger] w->0.operands@[p] is BranchTarget)
        }
}

/// Word `k` was the last of the first `n` to write register `d`, and loaded the page
/// address `a`.
pub open spec fn left(words: Seq<Option<WordInsn>>, n: int, d: u8, a: u64, k: int) -> bool {
    &&& 0 <= k < n
    &&& writes(words[k], d)
    &&& loads_page(words[k], a)
    &&& forall|j: int| k < j < n ==> !writes(#[trigger] words[j], d)
}

proof fn lemma_first_register(w: WordInsn, i: int, d: u8)
    requires
        0 <= i,
        forall|p: int, e: u8| 0 <= p < i ==> !#[trigger] is_register(w, p, e),
    ensures
        first_x_register(w.operands@, i) == Some(d) <==> writes(Some(w), d),
    decreases w.operands@.len() - i,
{
    if i < w.operands@.len() {
        match w.operands@[i] {
            WordOperand::Register { class, index } => {
                if class != RegisterClass::Other {
                    assert(is_register(w, i, index));
                    if index == d {
                        assert(writes(Some(w), d));
                    } else if writes(Some(w), d) {
                        let q = choose|q: int| #[trigger]
                            is_register(w, q, d) && forall|p: int, e: u8|
                                0 <= p < q ==> !#[trigger] is_register(w, p, e);
                        if q < i {
                            assert(!is_register(w, q, d));
                        } else if q > i {
                            assert(!is_register(w, i, index));
                        }
                    }
                } else {
                    lemma_first_register(w, i + 1, d);
                }
            },
            _ => {
                lemma_first_register(w, i + 1, d);
            },
        }
    } else if writes(Some(w), d) {
        let q = choose|q: int| #[trigger]
            is_register(w, q, d) && forall|p: int, e: u8|
                0 <= p < q ==> !#[trigger] is_register(w, p, e);
        assert(!is_register(w, q, d));
    }
}

proof fn lemma_first_target(ops: Seq<WordOperand>, i: int, a: u64)
    requires
        0 <= i,
        forall|p: int| 0 <= p < i && p < ops.len() ==> !(#[trigger] ops[p] is BranchTarget),
    ensures
        first_target(ops, i) == Some(a) <==> exists|q: int|
            {
                &&& 0 <= q < ops.len()
                &&& #[trigger] ops[q] == WordOperand::BranchTarget(a)
                &&& forall|p: int| 0 <= p < q ==> !(#[trigger] ops[p] is BranchTarget)
            },
    decreases ops.len() - i,
{
    if i < ops.len() {
        match ops[i] {
            WordOperand::BranchTarget(b) => {
                if b == a {
                    assert(ops[i] == WordOperand::BranchTarget(a));
                }
            },
            _ => {
                lemma_first_target(ops, i + 1, a);
            },
        }
    }
}

proof fn lemma_facts(w: Option<WordInsn>, d: u8, a: u64)
    ensures
        prepass_facts(w).1 == Some(d) <==> writes(w, d),
        prepass_facts(w).2 && prepass_facts(w).3 == Some(a) <==> loads_page(w, a),
        prepass_facts(w).2 ==> w is Some && w->0.adrp,
        prepass_facts(w).0 <==> w is Some && w->0.terminator,
{
    if w is Some {
        lemma_first_register(w->0, 0, d);
        lemma_first_target(w->0.operands@, 0, a);
    }
}

/// What is read of a word ahead of the listing: whether control ends there, and what
/// it does to a register.
pub proof fn law_word_facts(w: Option<WordInsn>, d: u8, a: u64)
    ensures
        prepass_facts(w).0 <==> w is Some && w->0.terminator,
        prepass_facts(w).1 == Some(d) <==> writes(w, d),
        prepass_facts(w).2 <==> w is Some && w->0.adrp,
        prepass_facts(w).3 == Some(a) <==> loads_page(w, a),
{
    lemma_facts(w, d, a);
}

/// A register holds a page address exactly if the last word that wrote the register
/// loaded that address.
pub proof fn law_registers_hold_pages(words: Seq<Option<WordInsn>>, n: int, d: u8, a: u64)
    requires
        0 <= n <= words.len(),
        d < 32,
    ensures
        tracker_upto(words, n).len() == 32,
        tracker_upto(words, n)[d as int] == Some(a) <==> exists|k: int| #[trigger]
            left(words, n, d, a, k),
    decreases n,
{
    if n > 0 {
        law_registers_hold_pages(words, n - 1, d, a);
        let w = words[n - 1];
        lemma_facts(w, d, a);
        let before = tracker_upto(words, n - 1);
        if writes(w, d) {
            if loads_page(w, a) {
                assert(left(words, n, d, a, n - 1));
            }
            assert forall|k: int| #[trigger] left(words, n, d, a, k) implies k == n - 1 by {
                if k < n - 1 {
                    assert(!writes(words[n - 1], d));
                }
            }
        } else {
            assert(tracker_upto(words, n)[d as int] == before[d as int]);
            if before[d as int] == Some(a) {
                let k = choose|k: int| #[trigger] left(words, n - 1, d, a, k);
                assert(left(words, n, d, a, k));
            }
            if exists|k: int| #[trigger] left(words, n, d, a, k) {
                let k = choose|k: int| #[trigger] left(words, n, d, a, k);
                assert(left(words, n - 1, d, a, k));
            }
        }
    }
}

/// A record of the registers is kept exactly if one of them holds something, and
/// tells what they hold.
pub proof fn law_register_records(s: Option<PageBaseSnapshot>, pages: Seq<Option<u64>>)
    requires
        records(s, pages),
    ensures
        s is Some <==> exists|i: int| 0 <= i < pages.len() && #[trigger] pages[i] is Some,
        s matches Some(snap) ==> snap.x_pages@ == pages,
{
}

// ---- pages -----------------------------------------------------------------

/// A page of a listing holds 2048 instructions, the last one what is left; a section
/// without instructions has one page.
pub proof fn law_listing_pages(l: &PagedListing, i: int)
    requires
        l.listing().valid(),
    ensures
        PAGE_INSNS == 2048,
        total_insns(l.listing().text) == 0 ==> l.pages() == 1,
        total_insns(l.listing().text) > 0 ==> 2048 * l.pages() - 2048 < total_insns(
            l.listing().text,
        ) <= 2048 * l.pages(),
        0 <= i < total_insns(l.listing().text) ==> l.page_holds(i / 2048, l.listing().insn_row(i)),
{
    if 0 <= i < total_insns(l.listing().text) {
        l.law_insn_rows(i);
    }
}

/// A row stands on the page that holds it, at its distance from where the page
/// begins; what is told of the arrows of a row is what the row shows.
pub proof fn law_page_rows(l: &PagedListing, p: int, g: int)
    requires
        l.page_holds(p, g),
    ensures
        ({
            let rows = drawn_rows(l.listing(), l.lanes());
            &&& 0 <= g < rows.len()
            &&& l.all_rows() == rows
            &&& 0 <= g - l.start_of(p) < l.page_rows(p).len()
            &&& l.page_rows(p)[g - l.start_of(p)] == rows[g]
            &&& l.page_rows(p).len() == l.start_of(p + 1) - l.start_of(p)
            &&& !(rows[g] is SymbolHeader) ==> row_arrows(rows[g]) == l.arrows_at(g)
            &&& l.is_insn_row(g) <==> rows[g] is Instruction
        }),
{
    l.law_page_starts(p, p + 1);
    l.law_page_starts(0, p);
}

/// Every row of a listing stands on one page, and there are no instruction rows
/// beyond its rows.
pub proof fn law_every_row_has_a_page(l: &PagedListing, g: int)
    requires
        l.listing().valid(),
    ensures
        0 <= g < l.all_rows().len() ==> exists|p: int| #[trigger] l.page_holds(p, g),
        !(0 <= g < l.all_rows().len()) ==> !l.is_insn_row(g),
{
    if 0 <= g < l.all_rows().len() {
        let n = l.pages();
        l.law_page_starts(0, n);
        lemma_some_page(l, n, g);
    }
}

proof fn lemma_some_page(l: &PagedListing, n: int, g: int)
    requires
        0 <= n <= l.pages(),
        0 <= g < l.start_of(n),
    ensures
        exists|p: int| #[trigger] l.page_holds(p, g),
    decreases n,
{
    l.law_page_starts(0, n);
    if n > 0 {
        if g < l.start_of(n - 1) {
            lemma_some_page(l, n - 1, g);
        } else {
            assert(l.page_holds(n - 1, g));
        }
    }
}

/// A row of a hex view stands on the page that holds it, at its distance from where
/// the page begins.
pub proof fn law_hex_page_rows(h: &PagedHex, p: int, g: int)
    requires
        h.page_holds(p, g),
    ensures
        ({
            let rows = hex_rows(h.base(), h.bytes(), h.syms());
            &&& 0 <= g < rows.len()
            &&& h.all_rows() == rows
            &&& 0 <= g - h.start_of(p) < h.page_rows(p).len()
            &&& h.page_rows(p)[g - h.start_of(p)] == rows[g]
            &&& h.page_rows(p).len() == h.start_of(p + 1) - h.start_of(p)
            &&& h.is_byte_row(g) <==> rows[g] is Bytes
        }),
{
    h.law_page_starts(p, p + 1);
    h.law_page_starts(0, p);
}

/// Every row of a hex view stands on one page, and there are no byte rows beyond its
/// rows.
pub proof fn law_every_hex_row_has_a_page(h: &PagedHex, g: int)
    ensures
        0 <= g < h.all_rows().len() ==> exists|p: int| #[trigger] h.page_holds(p, g),
        !(0 <= g < h.all_rows().len()) ==> !h.is_byte_row(g),
{
    if 0 <= g < h.all_rows().len() {
        let n = crate::paged_hex::pages_for(h.byte_rows());
        h.law_page_starts(0, n);
        lemma_some_hex_page(h, n, g);
    }
}

proof fn lemma_some_hex_page(h: &PagedHex, n: int, g: int)
    requires
        0 <= n <= crate::paged_hex::pages_for(h.byte_rows()),
        0 <= g < h.start_of(n),
    ensures
        exists|p: int| #[trigger] h.page_holds(p, g),
    decreases n,
{
    h.law_page_starts(0, n);
    if n > 0 {
        if g < h.start_of(n - 1) {
            lemma_some_hex_page(h, n - 1, g);
        } else {
            assert(h.page_holds(n - 1, g));
        }
    }
}

/// Using a page of a listing changes nothing of the section, and moves the page to the
/// end of the order of use.
pub proof fn law_using_a_page(l: &PagedListing, before: &PagedListing, p: u32)
    requires
        l.used(before, p as int),
    ensures
        l.listing() == before.listing(),
        l.lanes() == before.lanes(),
        l.max() == before.max(),
        l.order() == after_use(before.order(), p, before.max()),
        l.all_rows() == before.all_rows(),
{
}

/// Using a page of a hex view changes nothing of the section, and moves the page to the
/// end of the order of use.
pub proof fn law_using_a_hex_page(h: &PagedHex, before: &PagedHex, p: u32)
    requires
        h.used(before, p as int),
    ensures
        h.base() == before.base(),
        h.bytes() == before.bytes(),
        h.syms() == before.syms(),
        h.max() == before.max(),
        h.order() == after_use(before.order(), p, before.max()),
        h.all_rows() == before.all_rows(),
{
}

/// What leaves the pages of a listing alone changes nothing of it.
pub proof fn law_leaving_pages_alone(l: &PagedListing, before: &PagedListing)
    requires
        l.unchanged(before),
    ensures
        l.listing() == before.listing(),
        l.lanes() == before.lanes(),
        l.max() == before.max(),
        l.order() == before.order(),
{
}

/// An address begins an incomplete word where a fixed-width section has instructions
/// and bytes left after the last of them.
pub proof fn law_partial_word(l: &PagedListing, addr: u64)
    ensures
        ({
            let t = l.listing().text;
            l.begins_partial_word(addr) <==> {
                &&& t.precomputed is None
                &&& total_insns(t) > 0
                &&& addr == t.base + 4 * total_insns(t)
                &&& t.bytes@.len() > 4 * total_insns(t)
            }
        }),
{
}

/// A row has an entry among the arrows exactly if it shows some, and the entry holds
/// what it shows.
pub proof fn law_arrow_table(
    m: Map<u32, Vec<ArrowSegment>>,
    l: crate::listing::Listing,
    lanes: u8,
    row: u32,
)
    requires
        shows(m, l.arrows(), l.arrows().len() as int, lanes),
    ensures
        m.contains_key(row) <==> arrows_on(l, lanes, row as int).len() > 0,
        m.contains_key(row) ==> m[row]@ == arrows_on(l, lanes, row as int),
{
    assert(segments(l.arrows(), l.arrows().len() as int, row as int, lanes) == arrows_on(
        l,
        lanes,
        row as int,
    ));
}

// ---- cached pages ----------------------------------------------------------

/// Using a page makes it the last one in the order of use, and leaves the other
/// cached pages in their order, but for the oldest where there is no room for it.
pub proof fn law_page_use(order: Seq<u32>, page: u32, max: int)
    requires
        order.no_duplicates(),
        order.len() <= max,
        0 < max,
    ensures
        ({
            let after = after_use(order, page, max);
            &&& after.len() > 0 && after.last() == page
            &&& order.contains(page) ==> after.len() == order.len()
            &&& !order.contains(page) && order.len() < max ==> after == order.push(page)
            &&& !order.contains(page) && order.len() == max ==> after == order.skip(1).push(page)
            &&& forall|q: u32|
                q != page && order.contains(page) ==> (#[trigger] after.contains(q)
                    <==> order.contains(q))
            &&& forall|i: int, j: int|
                order.contains(page) && 0 <= i < j < order.len() && order[i] != page && order[j]
                    != page ==> after.index_of(#[trigger] order[i]) < after.index_of(
                    #[trigger] order[j],
                )
        }),
{
    let after = after_use(order, page, max);
    if order.contains(page) {
        let at = order.index_of(page);
        assert(0 <= at < order.len() && order[at] == page);
        let rest = order.remove(at);
        assert(after =~= rest.push(page));
        assert forall|i: int| 0 <= i < order.len() && i != at implies after[if i < at {
            i
        } else {
            i - 1
        }] == #[trigger] order[i] by {}
        assert forall|q: u32| q != page implies (#[trigger] after.contains(q) <==> order.contains(
            q,
        )) by {
            if after.contains(q) {
                let k = choose|k: int| 0 <= k < after.len() && after[k] == q;
                assert(k < rest.len());
                let i = if k < at {
                    k
                } else {
                    k + 1
                };
                assert(order[i] == q);
            }
            if order.contains(q) {
                let i = choose|i: int| 0 <= i < order.len() && order[i] == q;
                let k = if i < at {
                    i
                } else {
                    i - 1
                };
                assert(after[k] == q);
            }
        }
        crate::page_cache::law_used_page_is_newest(order, page, max);
        assert forall|i: int, j: int|
            0 <= i < j < order.len() && order[i] != page && order[j] != page implies after.index_of(
            #[trigger] order[i],
        ) < after.index_of(#[trigger] order[j]) by {
            let a = if i < at {
                i
            } else {
                i - 1
            };
            let b = if j < at {
                j
            } else {
                j - 1
            };
            assert(after[a] == order[i]);
            assert(after[b] == order[j]);
            assert(after.contains(order[i]));
            assert(after.contains(order[j]));
            assert(after.index_of(order[i]) == a);
            assert(after.index_of(order[j]) == b);
        }
    } else {
        if order.len() == max {
            assert(after =~= order.skip(1).push(page));
        }
    }
}

/// Using pages one after the other is using each of them in turn.
pub proof fn law_page_uses(order: Seq<u32>, from: int, to: int, max: int)
    ensures
        from < to ==> after_uses_up(order, from, to, max) == after_use(
            after_uses_up(order, from, to - 1, max),
            (to - 1) as u32,
            max,
        ),
        from >= to ==> after_uses_up(order, from, to, max) == order,
        from >= to ==> after_uses_down(order, from, to, max) == after_use(
            after_uses_down(order, from, to + 1, max),
            to as u32,
            max,
        ),
        from < to ==> after_uses_down(order, from, to, max) == order,
{
}

} // verus!

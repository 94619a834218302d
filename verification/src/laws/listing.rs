//! The disassembly listing: which rows a section has, and which arrows they
//! show.

use crate::arrows::{lane_for, lane_of, lanes_upto, segment_of, segments, PendingArrow};
use crate::listing::{
    ArrowDirection, ArrowRole, ArrowSegment, ArrowStyle, BareRow, Listing, ListingRowView, WordInsn,
};
use crate::paged_listing::{arrows_on, drawn_rows};
use crate::sections::TextSectionBytes;
use crate::symbols::{address_ordered, count_below, lemma_count_below, Symbol};
use vstd::prelude::*;

verus! {

// ---- sections --------------------------------------------------------------

/// The number of instructions of a section: those decoded ahead of time, or one
/// per four bytes.
pub open spec fn total_insns(t: TextSectionBytes) -> int {
    match t.precomputed {
        Some(p) => p@.len() as int,
        None => t.bytes@.len() as int / 4,
    }
}

/// The address of instruction `i`.
pub open spec fn address_of_insn(t: TextSectionBytes, i: int) -> int {
    match t.precomputed {
        Some(p) => p@[i].address as int,
        None => t.base + 4 * i,
    }
}

/// Whether control ends at instruction `i`.
pub open spec fn ends_at(l: Listing, i: int) -> bool {
    match l.text.precomputed {
        Some(p) => p@[i].terminator,
        None => match l.words[i] {
            Some(w) => w.terminator,
            None => false,
        },
    }
}

/// Symbol `q` names address `a`, as it is or with the Thumb marker bit set.
pub open spec fn names(s: Symbol, a: int) -> bool {
    s.address == a || s.address == (a as u64 | 1)
}

/// A section can be listed: instructions have addresses and stand in order, each
/// has its decoded word, and symbols stand in address order.
pub open spec fn listable(l: Listing) -> bool {
    &&& l.words.len() == total_insns(l.text)
    &&& forall|i: int|
        0 <= i < total_insns(l.text) ==> #[trigger] address_of_insn(l.text, i) <= u64::MAX
    &&& l.text.precomputed is Some ==> forall|i: int, j: int|
        0 <= i < j < total_insns(l.text) ==> #[trigger] address_of_insn(l.text, i)
            < #[trigger] address_of_insn(l.text, j)
    &&& forall|i: int, j: int|
        0 <= i <= j < l.syms.len() ==> (#[trigger] l.syms[i]).address <= (
        #[trigger] l.syms[j]).address
}

/// Nothing but address space and order is asked of a section before it is listed
/// or scanned.
pub proof fn law_ordinary_sections_are_listed(l: Listing)
    requires
        listable(l),
    ensures
        l.valid(),
        l.text.fits(),
        l.text.walkable(),
{
    let t = l.text;
    let n = total_insns(t);
    match t.precomputed {
        Some(p) => {
            assert forall|i: int, j: int| 0 <= i < j < p@.len() implies (#[trigger] p@[i]).address
                < (#[trigger] p@[j]).address by {
                assert(address_of_insn(t, i) < address_of_insn(t, j));
            }
        },
        None => {
            if t.bytes@.len() >= 4 {
                assert(address_of_insn(t, n - 1) <= u64::MAX);
            }
        },
    }
}

// ---- rows ------------------------------------------------------------------

/// The row that shows the instruction at `a`.
pub open spec fn shows_insn(row: ListingRowView, a: int) -> bool {
    row is Instruction && row->Instruction_address == a
}

/// Symbol `q` is announced above the instruction at `a`: it is the first that
/// names the address as it is, or the first that names it with the marker bit
/// where none names it as it is.
pub open spec fn announced(syms: Seq<Symbol>, a: int, q: int) -> bool {
    &&& 0 <= q < syms.len()
    &&& names(syms[q], a)
    &&& forall|p: int| 0 <= p < q ==> (#[trigger] syms[p]).address != syms[q].address
    &&& syms[q].address != a ==> forall|p: int|
        0 <= p < syms.len() ==> (#[trigger] syms[p]).address != a
}

proof fn lemma_header(l: Listing, i: int)
    requires
        listable(l),
        0 <= i < total_insns(l.text),
    ensures
        l.addr(i) as int == address_of_insn(l.text, i),
        l.has_header(i) <==> exists|q: int|
            0 <= q < l.syms.len() && names(#[trigger] l.syms[q], address_of_insn(l.text, i)),
        l.has_header(i) ==> exists|q: int|
            #[trigger] announced(l.syms, address_of_insn(l.text, i), q) && l.header(i) == l.syms[q],
{
    assert(address_of_insn(l.text, i) <= u64::MAX);
    let a = l.addr(i);
    assert(a as int == address_of_insn(l.text, i));
    if crate::symbols::symbol_starts_at(l.syms, a) {
        lemma_first_named(l.syms, a);
        assert(announced(l.syms, a as int, count_below(l.syms, a as int)));
        assert(names(l.syms[count_below(l.syms, a as int)], a as int));
    } else if crate::symbols::symbol_starts_at(l.syms, a | 1) {
        lemma_first_named(l.syms, a | 1);
        let q = count_below(l.syms, (a | 1) as int);
        assert(announced(l.syms, a as int, q));
        assert(names(l.syms[q], a as int));
    } else {
        assert forall|q: int| 0 <= q < l.syms.len() implies !names(#[trigger] l.syms[q], a as int) by {
        }
    }
}

proof fn lemma_row_above(l: Listing, i: int)
    requires
        0 <= i < l.count(),
    ensures
        ({
            let r = l.insn_row(i);
            &&& l.has_header(i) ==> r > 0 && l.bare_rows()[r - 1] == BareRow::Header(l.header(i))
            &&& !l.has_header(i) && r > 0 ==> !(l.bare_rows()[r - 1] is Header)
        }),
{
    let n = l.count();
    let r = l.insn_row(i);
    l.lemma_start(i);
    if l.has_header(i) {
        l.lemma_rows_at(i, n, 0);
    } else if r > 0 {
        l.lemma_start(i - 1);
        let above = l.rows_of(i - 1);
        l.lemma_rows_at(i - 1, n, above.len() - 1);
    }
}

proof fn lemma_row_below(l: Listing, i: int)
    requires
        0 <= i < l.count(),
    ensures
        ({
            let r = l.insn_row(i);
            let rows = l.bare_rows();
            (r + 1 < rows.len() && rows[r + 1] is Separator) <==> l.ends_block(i)
        }),
{
    let n = l.count();
    let r = l.insn_row(i);
    let mine = l.rows_of(i);
    l.lemma_start(i);
    l.lemma_start_monotonic(i + 1, n);
    if l.ends_block(i) {
        l.lemma_rows_at(i, n, mine.len() - 1);
    } else if r + 1 < l.bare_rows().len() {
        l.lemma_start(i + 1);
        l.lemma_rows_at(i + 1, n, 0);
    }
}

/// Every instruction has a row of its own. Above it stands a header exactly if a
/// symbol names its address, with that symbol's name; below it stands a
/// separator exactly if control ends there.
pub proof fn law_rows_of_an_instruction(l: Listing, lanes: u8, i: int)
    requires
        listable(l),
        0 <= i < total_insns(l.text),
    ensures
        ({
            let rows = drawn_rows(l, lanes);
            let a = address_of_insn(l.text, i);
            let r = l.insn_row(i);
            &&& 0 <= r < rows.len()
            &&& shows_insn(rows[r], a)
            &&& (r > 0 && rows[r - 1] is SymbolHeader) <==> (exists|q: int|
                0 <= q < l.syms.len() && names(#[trigger] l.syms[q], a))
            &&& (r > 0 && rows[r - 1] is SymbolHeader) ==> exists|q: int|
                {
                    &&& #[trigger] announced(l.syms, a, q)
                    &&& rows[r - 1]->SymbolHeader_address == l.syms[q].address
                    &&& rows[r - 1]->name == l.syms[q].display_name@
                }
            &&& (r + 1 < rows.len() && rows[r + 1] is BasicBlockSeparator) <==> ends_at(l, i)
        }),
{
    lemma_header(l, i);
    lemma_row_above(l, i);
    lemma_row_below(l, i);
    l.lemma_insn_row(i, l.count());
    assert(l.ends_block(i) == ends_at(l, i));
    if l.has_header(i) {
        let q = choose|q: int|
            #[trigger] announced(l.syms, address_of_insn(l.text, i), q) && l.header(i) == l.syms[q];
        assert(announced(l.syms, address_of_insn(l.text, i), q));
    }
}

/// The rows stand in the order of the instructions, and there are no others:
/// every header stands above an instruction, every separator below one, and
/// every instruction row shows one of the section's instructions.
pub proof fn law_rows_stand_in_order(l: Listing, lanes: u8, g: int)
    requires
        listable(l),
        0 <= g < drawn_rows(l, lanes).len(),
    ensures
        ({
            let rows = drawn_rows(l, lanes);
            let n = total_insns(l.text);
            &&& rows[g] is SymbolHeader ==> g + 1 < rows.len() && rows[g + 1] is Instruction
            &&& rows[g] is BasicBlockSeparator ==> g > 0 && rows[g - 1] is Instruction
            &&& rows[g] is Instruction ==> exists|i: int|
                0 <= i < n && g == #[trigger] l.insn_row(i)
            &&& forall|i: int, j: int|
                0 <= i < j < n ==> #[trigger] l.insn_row(i) < #[trigger] l.insn_row(j)
        }),
{
    let n = l.count();
    let i = l.lemma_insn_above(n, g);
    l.lemma_start(i);
    l.lemma_insn_row(i, n);
    let k = g - l.start(i);
    l.lemma_rows_at(i, n, k);
    assert forall|i: int, j: int| 0 <= i < j < n implies #[trigger] l.insn_row(i)
        < #[trigger] l.insn_row(j) by {
        l.lemma_start_monotonic(i, j);
    }
}

/// The first symbol at an address is found by counting those below.
proof fn lemma_first_named(syms: Seq<Symbol>, a: u64)
    requires
        address_ordered(syms),
        exists|q: int| 0 <= q < syms.len() && (#[trigger] syms[q]).address == a,
    ensures
        ({
            let q = count_below(syms, a as int);
            &&& 0 <= q < syms.len()
            &&& syms[q].address == a
            &&& forall|p: int| 0 <= p < q ==> (#[trigger] syms[p]).address != a
        }),
{
    lemma_count_below(syms, a as int);
    let w = choose|q: int| 0 <= q < syms.len() && (#[trigger] syms[q]).address == a;
    let q = count_below(syms, a as int);
    assert(w >= q);
    assert(syms[q].address <= syms[w].address);
}

// ---- arrows ----------------------------------------------------------------

/// The arrow segments that a row shows; headers show none.
pub open spec fn row_arrows(row: ListingRowView) -> Seq<ArrowSegment> {
    match row {
        ListingRowView::SymbolHeader { .. } => Seq::empty(),
        ListingRowView::Instruction { arrows, .. } => arrows,
        ListingRowView::BasicBlockSeparator { arrows } => arrows,
    }
}

/// Instruction `i` of a fixed-width section branches directly to instruction `t`
/// and no symbol stands between them: none names an instruction after the
/// earlier one, up to the later one.
pub open spec fn branches_within(l: Listing, i: int, t: int) -> bool {
    &&& l.text.precomputed is None
    &&& 0 <= i < total_insns(l.text)
    &&& 0 <= t < total_insns(l.text)
    &&& i != t
    &&& l.words[i] matches Some(w) && (w.unconditional_branch || w.conditional_branch)
        && w.address_operand == Some((l.text.base + 4 * t) as u64)
    &&& forall|k: int, q: int|
        (i < k <= t || t < k <= i) && 0 <= q < l.syms.len() ==> !names(
            #[trigger] l.syms[q],
            #[trigger] address_of_insn(l.text, k),
        )
}

/// What a row shows of the arrow from row `src` to row `tgt` in a lane: solid for
/// an unconditional branch, dotted for a conditional one.
pub open spec fn expected_segment(w: WordInsn, src: int, tgt: int, lane: u8, row: int) -> ArrowSegment {
    ArrowSegment {
        lane,
        style: if w.unconditional_branch {
            ArrowStyle::Solid
        } else {
            ArrowStyle::Dotted
        },
        direction: if tgt > src {
            ArrowDirection::Down
        } else {
            ArrowDirection::Up
        },
        role: if row == src {
            ArrowRole::Source
        } else if row == tgt {
            ArrowRole::Target
        } else {
            ArrowRole::Pass
        },
    }
}

/// Every row from one end of the arrow to the other shows it in one lane, apart
/// from headers.
pub open spec fn drawn_across(rows: Seq<ListingRowView>, w: WordInsn, src: int, tgt: int, lane: u8) -> bool {
    forall|g: int|
        (src <= g <= tgt || tgt <= g <= src) && !((#[trigger] rows[g]) is SymbolHeader)
            ==> row_arrows(rows[g]).contains(expected_segment(w, src, tgt, lane, g))
}

proof fn lemma_same_function(l: Listing, i: int, t: int)
    requires
        listable(l),
        l.text.precomputed is None,
        0 <= i < total_insns(l.text),
        0 <= t < total_insns(l.text),
    ensures
        l.same_function(i, t) <==> forall|k: int, q: int|
            (i < k <= t || t < k <= i) && 0 <= q < l.syms.len() ==> !names(
                #[trigger] l.syms[q],
                #[trigger] address_of_insn(l.text, k),
            ),
{
    if l.same_function(i, t) {
        assert forall|k: int, q: int|
            (i < k <= t || t < k <= i) && 0 <= q < l.syms.len() implies !names(
            #[trigger] l.syms[q],
            #[trigger] address_of_insn(l.text, k),
        ) by {
            lemma_header(l, k);
            assert(!l.has_header(k));
        }
    }
    if forall|k: int, q: int|
        (i < k <= t || t < k <= i) && 0 <= q < l.syms.len() ==> !names(
            #[trigger] l.syms[q],
            #[trigger] address_of_insn(l.text, k),
        ) {
        assert forall|k: int| (i < k <= t || t < k <= i) implies !#[trigger] l.has_header(k) by {
            lemma_header(l, k);
            if l.has_header(k) {
                let q = choose|q: int|
                    0 <= q < l.syms.len() && names(
                        #[trigger] l.syms[q],
                        address_of_insn(l.text, k),
                    );
                assert(!names(l.syms[q], address_of_insn(l.text, k)));
            }
        }
    }
}

proof fn lemma_arrow_listed(l: Listing, i: int, n: int) -> (k: int)
    requires
        0 <= i < n,
        l.arrow_of(i) is Some,
    ensures
        0 <= k < l.arrows_upto(n).len(),
        l.arrows_upto(n)[k] == l.arrow_of(i)->0,
    decreases n,
{
    if i == n - 1 {
        l.arrows_upto(n - 1).len() as int
    } else {
        lemma_arrow_listed(l, i, n - 1)
    }
}

proof fn lemma_arrow_comes_from(l: Listing, n: int, k: int) -> (i: int)
    requires
        0 <= k < l.arrows_upto(n).len(),
    ensures
        0 <= i < n,
        l.arrow_of(i) == Some(l.arrows_upto(n)[k]),
    decreases n,
{
    if l.arrow_of(n - 1) is Some && k == l.arrows_upto(n - 1).len() {
        n - 1
    } else {
        lemma_arrow_comes_from(l, n - 1, k)
    }
}

proof fn lemma_arrow_count(l: Listing, n: int)
    requires
        0 <= n,
    ensures
        l.arrows_upto(n).len() <= n,
    decreases n,
{
    if n > 0 {
        lemma_arrow_count(l, n - 1);
    }
}

proof fn lemma_segment_shown(arrows: Seq<PendingArrow>, k: int, n: int, row: int, lanes: u8)
    requires
        0 <= k < n,
        segment_of(arrows, k, row, lanes) is Some,
    ensures
        segments(arrows, n, row, lanes).contains(segment_of(arrows, k, row, lanes)->0),
    decreases n,
{
    let seg = segment_of(arrows, k, row, lanes)->0;
    let before = segments(arrows, n - 1, row, lanes);
    let now = segments(arrows, n, row, lanes);
    if k == n - 1 {
        assert(now[before.len() as int] == seg);
    } else {
        lemma_segment_shown(arrows, k, n - 1, row, lanes);
        let x = choose|x: int| 0 <= x < before.len() && before[x] == seg;
        assert(now[x] == seg);
    }
}

proof fn lemma_segment_comes_from(arrows: Seq<PendingArrow>, n: int, row: int, lanes: u8, x: int) -> (k:
    int)
    requires
        0 <= x < segments(arrows, n, row, lanes).len(),
    ensures
        0 <= k < n,
        segment_of(arrows, k, row, lanes) == Some(segments(arrows, n, row, lanes)[x]),
    decreases n,
{
    if segment_of(arrows, n - 1, row, lanes) is Some && x == segments(
        arrows,
        n - 1,
        row,
        lanes,
    ).len() {
        n - 1
    } else {
        lemma_segment_comes_from(arrows, n - 1, row, lanes, x)
    }
}

/// An arrow never lies further out than there are arrows before it.
proof fn lemma_lanes_are_few(arrows: Seq<PendingArrow>, k: int)
    requires
        0 <= k <= arrows.len(),
    ensures
        lanes_upto(arrows, k).len() <= k,
        k < arrows.len() ==> 0 <= lane_of(arrows, k) <= k,
    decreases k,
{
    if k > 0 {
        lemma_lanes_are_few(arrows, k - 1);
        lemma_first_free(lanes_upto(arrows, k - 1), arrows[k - 1].lo(), 0);
    }
    if k < arrows.len() {
        lemma_first_free(lanes_upto(arrows, k), arrows[k].lo(), 0);
    }
}

proof fn lemma_first_free(free: Seq<u32>, lo: u32, i: int)
    requires
        0 <= i <= free.len(),
    ensures
        i <= lane_for(free, lo, i) <= free.len(),
        lane_for(free, lo, i) < free.len() ==> free[lane_for(free, lo, i)] <= lo,
        forall|j: int| i <= j < lane_for(free, lo, i) ==> #[trigger] free[j] > lo,
    decreases free.len() - i,
{
    if i < free.len() && free[i] > lo {
        lemma_first_free(free, lo, i + 1);
    }
}

/// Every direct branch inside a function has an arrow, forwards or backwards,
/// from its own row to that of its target. It is drawn across all rows between
/// them where its lane is one of those drawn, and always where there are no more
/// instructions than lanes.
#[verifier::rlimit(60)]
pub proof fn law_every_branch_has_its_arrow(l: Listing, lanes: u8, i: int, t: int)
    requires
        listable(l),
        l.bare_rows().len() <= u32::MAX,
        branches_within(l, i, t),
    ensures
        ({
            let rows = drawn_rows(l, lanes);
            let src = l.insn_row(i);
            let tgt = l.insn_row(t);
            let w = l.words[i]->0;
            &&& 0 <= src < rows.len() && shows_insn(rows[src], l.text.base + 4 * i)
            &&& 0 <= tgt < rows.len() && shows_insn(rows[tgt], l.text.base + 4 * t)
            &&& src < tgt <==> i < t
            &&& exists|k: int|
                {
                    &&& 0 <= k < l.arrows().len()
                    &&& (#[trigger] l.arrows()[k]).src_row == src
                    &&& l.arrows()[k].tgt_row == tgt
                    &&& lane_of(l.arrows(), k) % 256 < lanes ==> drawn_across(
                        rows,
                        w,
                        src,
                        tgt,
                        (lane_of(l.arrows(), k) % 256) as u8,
                    )
                }
            &&& total_insns(l.text) <= lanes ==> exists|lane: u8| #[trigger]
                drawn_across(rows, w, src, tgt, lane)
        }),
{
    law_ordinary_sections_are_listed(l);
    let n = l.count();
    let rows = drawn_rows(l, lanes);
    let src = l.insn_row(i);
    let tgt = l.insn_row(t);
    let w = l.words[i]->0;
    let arrows = l.arrows();
    lemma_same_function(l, i, t);
    law_rows_of_an_instruction(l, lanes, i);
    law_rows_of_an_instruction(l, lanes, t);
    if i < t {
        l.lemma_start_monotonic(i, t);
    } else {
        l.lemma_start_monotonic(t, i);
    }
    assert(address_of_insn(l.text, t) <= u64::MAX);
    assert(l.branch_target(i) == Some(t)) by {
        let off = (l.text.base + 4 * t) as u64 - l.text.base;
        assert(off == 4 * t);
    }
    assert(l.arrow_of(i) is Some);
    let k = lemma_arrow_listed(l, i, n);
    assert(arrows[k].src_row == src && arrows[k].tgt_row == tgt);
    let lane = lane_of(arrows, k) % 256;
    lemma_lanes_are_few(arrows, k);
    lemma_arrow_count(l, n);
    if lane < lanes {
        assert forall|g: int|
            (src <= g <= tgt || tgt <= g <= src) && !((#[trigger] rows[g]) is SymbolHeader) implies row_arrows(
            rows[g],
        ).contains(expected_segment(w, src, tgt, lane as u8, g)) by {
            assert(segment_of(arrows, k, g, lanes) == Some(
                expected_segment(w, src, tgt, lane as u8, g),
            ));
            lemma_segment_shown(arrows, k, arrows.len() as int, g, lanes);
            assert(row_arrows(rows[g]) == arrows_on(l, lanes, g));
        }
        assert(drawn_across(rows, w, src, tgt, lane as u8));
    }
}

/// Nothing else is drawn: every segment on a row belongs to a direct branch
/// inside a function whose arrow reaches that row, and shows the part of it that
/// the row stands for. Sections of variable-width instructions show no arrow.
#[verifier::rlimit(60)]
pub proof fn law_every_arrow_has_its_branch(l: Listing, lanes: u8, g: int, x: int)
    requires
        listable(l),
        l.bare_rows().len() <= u32::MAX,
        0 <= g < drawn_rows(l, lanes).len(),
        0 <= x < row_arrows(drawn_rows(l, lanes)[g]).len(),
    ensures
        ({
            let seg = row_arrows(drawn_rows(l, lanes)[g])[x];
            &&& l.text.precomputed is None
            &&& seg.lane < lanes
            &&& exists|i: int, t: int|
                {
                    &&& #[trigger] branches_within(l, i, t)
                    &&& l.insn_row(i) <= g <= l.insn_row(t) || l.insn_row(t) <= g <= l.insn_row(i)
                    &&& seg == expected_segment(
                        l.words[i]->0,
                        l.insn_row(i),
                        l.insn_row(t),
                        seg.lane,
                        g,
                    )
                }
        }),
{
    law_ordinary_sections_are_listed(l);
    let n = l.count();
    let arrows = l.arrows();
    let seg = row_arrows(drawn_rows(l, lanes)[g])[x];
    assert(row_arrows(drawn_rows(l, lanes)[g]) == arrows_on(l, lanes, g));
    let k = lemma_segment_comes_from(arrows, arrows.len() as int, g, lanes, x);
    let i = lemma_arrow_comes_from(l, n, k);
    let t = l.branch_target(i)->0;
    lemma_same_function(l, i, t);
    law_rows_of_an_instruction(l, lanes, i);
    law_rows_of_an_instruction(l, lanes, t);
    if i < t {
        l.lemma_start_monotonic(i, t);
    } else {
        l.lemma_start_monotonic(t, i);
    }
    assert(address_of_insn(l.text, t) <= u64::MAX);
    assert((l.text.base + 4 * t) as u64 == l.words[i]->0.address_operand->0);
    assert(branches_within(l, i, t));
}

proof fn lemma_lane_filled(arrows: Seq<PendingArrow>, k: int, j: int) -> (m: int)
    requires
        0 <= k <= arrows.len(),
        forall|i: int| 0 <= i < arrows.len() ==> (#[trigger] arrows[i]).hi() < u32::MAX,
        0 <= j < lanes_upto(arrows, k).len(),
    ensures
        0 <= m < k,
        lane_of(arrows, m) == j,
        lanes_upto(arrows, k)[j] == arrows[m].hi() + 1,
    decreases k,
{
    let before = lanes_upto(arrows, k - 1);
    lemma_first_free(before, arrows[k - 1].lo(), 0);
    if lane_of(arrows, k - 1) == j {
        k - 1
    } else {
        lemma_lane_filled(arrows, k - 1, j)
    }
}

/// An arrow lies in the innermost lane that is free: in every lane further in,
/// an earlier arrow reaches down to the row at which this one begins.
pub proof fn law_arrows_lie_as_far_in_as_they_can(arrows: Seq<PendingArrow>, k: int, j: int)
    requires
        0 <= k < arrows.len(),
        forall|i: int| 0 <= i < arrows.len() ==> (#[trigger] arrows[i]).hi() < u32::MAX,
        0 <= j < lane_of(arrows, k),
    ensures
        exists|m: int|
            0 <= m < k && lane_of(arrows, m) == j && (if (#[trigger] arrows[m]).src_row
                >= arrows[m].tgt_row {
                arrows[m].src_row
            } else {
                arrows[m].tgt_row
            }) >= (if arrows[k].src_row <= arrows[k].tgt_row {
                arrows[k].src_row
            } else {
                arrows[k].tgt_row
            }),
{
    lemma_first_free(lanes_upto(arrows, k), arrows[k].lo(), 0);
    let m = lemma_lane_filled(arrows, k, j);
    assert(arrows[m].hi() >= arrows[k].lo());
}

} // verus!

//! The hex view: every byte and every symbol of a section has its place.

use crate::hex::{
    byte_row_position, header_of, headers_at, hex_rows, lemma_byte_row_at, lemma_row_above,
    lemma_rows_prefix, row_position, rows_upto, HexRowView,
};
use crate::paged_hex::{pages_for, PagedHex, PAGE_BYTE_ROWS};
use crate::sections::{row_slice, rows_for};
use crate::symbols::{
    address_ordered, count_below, lemma_count_below, lemma_count_below_monotonic, Symbol,
};
use vstd::prelude::*;

verus! {

/// Symbol `s` starts in a section of `len` bytes at `base`.
pub open spec fn starts_in(s: Symbol, base: int, len: int) -> bool {
    base <= s.address < base + len
}

/// The rows of a section. `at[i]` is the place of byte row `i`: sixteen bytes from
/// offset `16 * i` on, fewer at the end. `above[q]` is the place of the header of
/// symbol `q`: above the byte row in which it starts, below the byte row before.
/// There are no other rows.
pub open spec fn laid_out(
    rows: Seq<HexRowView>,
    base: int,
    bytes: Seq<u8>,
    syms: Seq<Symbol>,
    at: Seq<int>,
    above: Seq<int>,
) -> bool {
    &&& 16 * at.len() - 16 < bytes.len() <= 16 * at.len()
    &&& forall|i: int|
        0 <= i < at.len() ==> {
            &&& 0 <= #[trigger] at[i] < rows.len()
            &&& rows[at[i]] == (HexRowView::Bytes {
                address: base + 16 * i,
                bytes: bytes.subrange(
                    16 * i,
                    if 16 * i + 16 <= bytes.len() {
                        16 * i + 16
                    } else {
                        bytes.len() as int
                    },
                ),
            })
        }
    &&& forall|i: int, j: int| 0 <= i < j < at.len() ==> #[trigger] at[i] < #[trigger] at[j]
    &&& above.len() == syms.len()
    &&& forall|q: int|
        0 <= q < syms.len() && starts_in(#[trigger] syms[q], base, bytes.len() as int) ==> {
            let i = (syms[q].address - base) / 16;
            &&& 0 <= above[q] < at[i]
            &&& i > 0 ==> at[i - 1] < above[q]
            &&& rows[above[q]] == (HexRowView::SymbolHeader {
                address: syms[q].address as int,
                name: syms[q].display_name@,
            })
        }
    &&& forall|q: int, r: int|
        0 <= q < r < syms.len() && starts_in(#[trigger] syms[q], base, bytes.len() as int) && starts_in(
            #[trigger] syms[r],
            base,
            bytes.len() as int,
        ) ==> above[q] < above[r]
    &&& forall|k: int|
        0 <= k < rows.len() ==> {
            ||| at.contains(k)
            ||| exists|q: int|
                0 <= q < syms.len() && #[trigger] above[q] == k && starts_in(
                    syms[q],
                    base,
                    bytes.len() as int,
                )
        } && (#[trigger] rows[k] is Bytes || rows[k] is SymbolHeader)
}

/// Where the header of a symbol stands.
spec fn header_position(base: int, bytes: Seq<u8>, syms: Seq<Symbol>, q: int) -> int {
    let i = (syms[q].address - base) / 16;
    row_position(base, bytes, syms, i) + q - count_below(syms, base + 16 * i)
}

/// A symbol that starts in a section has its header above its byte row.
proof fn lemma_header(base: int, bytes: Seq<u8>, syms: Seq<Symbol>, q: int)
    requires
        address_ordered(syms),
        0 <= q < syms.len(),
        starts_in(syms[q], base, bytes.len() as int),
    ensures
        ({
            let i = (syms[q].address - base) / 16;
            let k = header_position(base, bytes, syms, q);
            &&& 0 <= i < rows_for(bytes.len() as int)
            &&& row_position(base, bytes, syms, i) <= k < byte_row_position(base, bytes, syms, i)
            &&& hex_rows(base, bytes, syms)[k] == header_of(syms[q])
        }),
{
    let n = rows_for(bytes.len() as int);
    let i = (syms[q].address - base) / 16;
    let k = header_position(base, bytes, syms, q);
    let lo = base + 16 * i;
    let hi = lo + row_slice(bytes, i).len();
    lemma_count_below(syms, lo);
    lemma_count_below(syms, hi);
    lemma_count_below_monotonic(syms, lo, hi);
    assert(lo <= syms[q].address < hi);
    let h = headers_at(base, bytes, syms, i);
    let p = row_position(base, bytes, syms, i);
    let part = rows_upto(base, bytes, syms, i + 1);
    lemma_rows_prefix(base, bytes, syms, i + 1, n);
    let whole = hex_rows(base, bytes, syms);
    assert(h[k - p] == header_of(syms[q]));
    assert(part[k] == h[k - p]);
    assert(whole.subrange(0, part.len() as int)[k] == whole[k]);
}

/// A row that is no byte row is the header of a symbol.
proof fn lemma_row(base: int, bytes: Seq<u8>, syms: Seq<Symbol>, k: int) -> (r: (int, int))
    requires
        address_ordered(syms),
        0 <= k < hex_rows(base, bytes, syms).len(),
    ensures
        0 <= r.0 < rows_for(bytes.len() as int),
        k == byte_row_position(base, bytes, syms, r.0) || {
            &&& 0 <= r.1 < syms.len()
            &&& starts_in(syms[r.1], base, bytes.len() as int)
            &&& k == header_position(base, bytes, syms, r.1)
        },
{
    let n = rows_for(bytes.len() as int);
    let i = lemma_row_above(base, bytes, syms, n, k);
    let p = row_position(base, bytes, syms, i);
    if k == byte_row_position(base, bytes, syms, i) {
        (i, 0)
    } else {
        let lo = base + 16 * i;
        let hi = lo + row_slice(bytes, i).len();
        lemma_count_below(syms, lo);
        lemma_count_below(syms, hi);
        lemma_count_below_monotonic(syms, lo, hi);
        let q = count_below(syms, lo) + k - p;
        assert(lo <= syms[q].address < hi);
        assert((syms[q].address - base) / 16 == i);
        (i, q)
    }
}

/// Every byte of a section stands in one row, every symbol that starts in it in one
/// header above that row, and nothing else is shown.
pub proof fn law_hex_rows(base: int, bytes: Seq<u8>, syms: Seq<Symbol>) -> (r: (Seq<int>, Seq<int>))
    requires
        address_ordered(syms),
    ensures
        laid_out(hex_rows(base, bytes, syms), base, bytes, syms, r.0, r.1),
        forall|i: int|
            0 <= i < r.0.len() ==> #[trigger] r.0[i] == byte_row_position(base, bytes, syms, i),
{
    let n = rows_for(bytes.len() as int);
    let rows = hex_rows(base, bytes, syms);
    let at = Seq::new(n as nat, |i: int| byte_row_position(base, bytes, syms, i));
    let above = Seq::new(syms.len(), |q: int| header_position(base, bytes, syms, q));
    assert forall|i: int| 0 <= i < at.len() implies {
        &&& 0 <= #[trigger] at[i] < rows.len()
        &&& rows[at[i]] == (HexRowView::Bytes {
            address: base + 16 * i,
            bytes: bytes.subrange(
                16 * i,
                if 16 * i + 16 <= bytes.len() {
                    16 * i + 16
                } else {
                    bytes.len() as int
                },
            ),
        })
    } by {
        lemma_byte_row_at(base, bytes, syms, i, n);
    }
    assert forall|i: int, j: int| 0 <= i < j < at.len() implies #[trigger] at[i] < #[trigger] at[j] by {
        lemma_byte_row_at(base, bytes, syms, j, n);
        lemma_rows_prefix(base, bytes, syms, i + 1, j);
    }
    assert forall|q: int|
        0 <= q < syms.len() && starts_in(#[trigger] syms[q], base, bytes.len() as int) implies {
        let i = (syms[q].address - base) / 16;
        &&& 0 <= above[q] < at[i]
        &&& i > 0 ==> at[i - 1] < above[q]
        &&& rows[above[q]] == (HexRowView::SymbolHeader {
            address: syms[q].address as int,
            name: syms[q].display_name@,
        })
    } by {
        lemma_header(base, bytes, syms, q);
    }
    assert forall|q: int, r: int|
        0 <= q < r < syms.len() && starts_in(#[trigger] syms[q], base, bytes.len() as int) && starts_in(
            #[trigger] syms[r],
            base,
            bytes.len() as int,
        ) implies above[q] < above[r] by {
        lemma_header(base, bytes, syms, q);
        lemma_header(base, bytes, syms, r);
        let i = (syms[q].address - base) / 16;
        let j = (syms[r].address - base) / 16;
        assert(syms[q].address <= syms[r].address);
        if i < j {
            lemma_rows_prefix(base, bytes, syms, i + 1, j);
        }
    }
    assert forall|k: int| 0 <= k < rows.len() implies ({
        ||| at.contains(k)
        ||| exists|q: int|
            0 <= q < syms.len() && #[trigger] above[q] == k && starts_in(
                syms[q],
                base,
                bytes.len() as int,
            )
    }) && (#[trigger] rows[k] is Bytes || rows[k] is SymbolHeader) by {
        let (i, q) = lemma_row(base, bytes, syms, k);
        if k == byte_row_position(base, bytes, syms, i) {
            assert(at[i] == k);
        } else {
            assert(above[q] == k);
        }
    }
    (at, above)
}

/// The pages of a paged hex view hold 1024 byte rows each, the last one what is
/// left: byte row `i` stands on page `i / 1024`.
pub proof fn law_byte_rows_on_pages(h: &PagedHex, i: int)
    requires
        0 <= i < rows_for(h.bytes().len() as int),
    ensures
        PAGE_BYTE_ROWS == 1024,
        h.page_holds(i / 1024, byte_row_position(h.base(), h.bytes(), h.syms(), i)),
{
    let n = rows_for(h.bytes().len() as int);
    let p = i / 1024;
    lemma_byte_row_at(h.base(), h.bytes(), h.syms(), i, n);
    lemma_rows_prefix(h.base(), h.bytes(), h.syms(), h.first_byte_row(p), i);
    lemma_byte_row_at(h.base(), h.bytes(), h.syms(), i, h.first_byte_row(p + 1));
}

/// A hex view has as many pages as its byte rows fill, and one where there are none.
pub proof fn law_hex_page_count(rows: int)
    requires
        0 <= rows,
    ensures
        rows == 0 ==> pages_for(rows) == 1,
        rows > 0 ==> 1024 * pages_for(rows) - 1024 < rows <= 1024 * pages_for(rows),
{
}

} // verus!

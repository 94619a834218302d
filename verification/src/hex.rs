//! Hex view rows: sixteen bytes per row, with the symbols that start in a row
//! announced above it.

use crate::sections::{row_slice, rows_for, DataSectionBytes};
use crate::symbols::{
    count_below, lemma_count_below_monotonic, symbols_within, Symbol, SymbolMap,
};
use vstd::prelude::*;

verus! {

/// One row of a hex view.
#[derive(Debug)]
pub enum HexRow {
    /// A symbol starts in the byte row below.
    SymbolHeader { address: u64, name: String },
    /// Up to sixteen bytes.
    Bytes { address: u64, bytes: Vec<u8> },
}

/// What a hex row shows.
#[verifier::ext_equal]
pub ghost enum HexRowView {
    SymbolHeader { address: int, name: Seq<char> },
    Bytes { address: int, bytes: Seq<u8> },
}

impl View for HexRow {
    type V = HexRowView;

    open spec fn view(&self) -> HexRowView {
        match self {
            HexRow::SymbolHeader { address, name } => HexRowView::SymbolHeader {
                address: *address as int,
                name: name@,
            },
            HexRow::Bytes { address, bytes } => HexRowView::Bytes {
                address: *address as int,
                bytes: bytes@,
            },
        }
    }
}

/// The views of a sequence of hex rows.
pub open spec fn hex_views(rows: Seq<HexRow>) -> Seq<HexRowView> {
    rows.map_values(|r: HexRow| r@)
}

/// The header row of a symbol.
pub open spec fn header_of(s: Symbol) -> HexRowView {
    HexRowView::SymbolHeader { address: s.address as int, name: s.display_name@ }
}

/// First address after byte row `row` of a section.
pub open spec fn row_end(base: int, bytes: Seq<u8>, row: int) -> int {
    base + 16 * row + row_slice(bytes, row).len()
}

/// The header rows above byte row `row`.
pub open spec fn headers_at(base: int, bytes: Seq<u8>, syms: Seq<Symbol>, row: int) -> Seq<HexRowView> {
    symbols_within(syms, base + 16 * row, row_end(base, bytes, row)).map_values(
        |s: Symbol| header_of(s),
    )
}

/// The byte row `row`.
pub open spec fn byte_row(base: int, bytes: Seq<u8>, row: int) -> HexRowView {
    HexRowView::Bytes { address: base + 16 * row, bytes: row_slice(bytes, row) }
}

/// The rows of the first `n` byte rows with their headers.
pub open spec fn rows_upto(base: int, bytes: Seq<u8>, syms: Seq<Symbol>, n: int) -> Seq<HexRowView>
    decreases n,
{
    if n <= 0 {
        Seq::empty()
    } else {
        rows_upto(base, bytes, syms, n - 1) + headers_at(base, bytes, syms, n - 1).push(
            byte_row(base, bytes, n - 1),
        )
    }
}

/// All rows of a section.
pub open spec fn hex_rows(base: int, bytes: Seq<u8>, syms: Seq<Symbol>) -> Seq<HexRowView> {
    rows_upto(base, bytes, syms, rows_for(bytes.len() as int))
}

/// Where the rows of byte row `row` begin.
pub open spec fn row_position(base: int, bytes: Seq<u8>, syms: Seq<Symbol>, row: int) -> int {
    rows_upto(base, bytes, syms, row).len() as int
}

/// Up to byte row `n` there are `n` byte rows and one header per symbol that
/// starts in them.
pub proof fn lemma_rows_len(base: int, bytes: Seq<u8>, syms: Seq<Symbol>, n: int)
    requires
        0 <= n <= rows_for(bytes.len() as int),
    ensures
        n < rows_for(bytes.len() as int) ==> row_position(base, bytes, syms, n) == n + count_below(
            syms,
            base + 16 * n,
        ) - count_below(syms, base),
        n == rows_for(bytes.len() as int) ==> row_position(base, bytes, syms, n) == n + count_below(
            syms,
            base + bytes.len(),
        ) - count_below(syms, base),
    decreases n,
{
    if n > 0 {
        lemma_rows_len(base, bytes, syms, n - 1);
        lemma_count_below_monotonic(
            syms,
            base + 16 * (n - 1),
            row_end(base, bytes, n - 1),
        );
    }
}

/// A prefix of byte rows yields a prefix of the rows.
pub proof fn lemma_rows_prefix(base: int, bytes: Seq<u8>, syms: Seq<Symbol>, m: int, n: int)
    requires
        0 <= m <= n,
    ensures
        row_position(base, bytes, syms, m) <= row_position(base, bytes, syms, n),
        rows_upto(base, bytes, syms, n).subrange(0, row_position(base, bytes, syms, m))
            == rows_upto(base, bytes, syms, m),
    decreases n - m,
{
    if m < n {
        lemma_rows_prefix(base, bytes, syms, m, n - 1);
        let k = row_position(base, bytes, syms, m);
        assert(rows_upto(base, bytes, syms, n).subrange(0, k) =~= rows_upto(
            base,
            bytes,
            syms,
            n - 1,
        ).subrange(0, k));
    } else {
        assert(rows_upto(base, bytes, syms, n).subrange(0, row_position(base, bytes, syms, n))
            =~= rows_upto(base, bytes, syms, n));
    }
}

/// Where byte row `row` itself stands among all rows.
pub open spec fn byte_row_position(base: int, bytes: Seq<u8>, syms: Seq<Symbol>, row: int) -> int {
    row_position(base, bytes, syms, row + 1) - 1
}

/// The row at the position of byte row `row` is that byte row, and every row
/// between two byte rows is a header.
pub proof fn lemma_byte_row_at(base: int, bytes: Seq<u8>, syms: Seq<Symbol>, row: int, n: int)
    requires
        0 <= row < n,
    ensures
        row_position(base, bytes, syms, row) <= byte_row_position(base, bytes, syms, row)
            < row_position(base, bytes, syms, n),
        rows_upto(base, bytes, syms, n)[byte_row_position(base, bytes, syms, row)] == byte_row(
            base,
            bytes,
            row,
        ),
        forall|k: int|
            row_position(base, bytes, syms, row) <= k < byte_row_position(base, bytes, syms, row)
                ==> (#[trigger] rows_upto(base, bytes, syms, n)[k]) is SymbolHeader,
{
    lemma_rows_prefix(base, bytes, syms, row + 1, n);
    let whole = rows_upto(base, bytes, syms, n);
    let part = rows_upto(base, bytes, syms, row + 1);
    let len = part.len() as int;
    assert(whole.subrange(0, len)[len - 1] == whole[len - 1]);
    assert forall|k: int|
        row_position(base, bytes, syms, row) <= k < byte_row_position(
            base,
            bytes,
            syms,
            row,
        ) implies (#[trigger] whole[k]) is SymbolHeader by {
        assert(whole.subrange(0, len)[k] == whole[k]);
        let h = headers_at(base, bytes, syms, row);
        let p = row_position(base, bytes, syms, row);
        assert(part[k] == h[k - p]);
    }
}

/// The byte row to which row `k` belongs.
pub proof fn lemma_row_above(base: int, bytes: Seq<u8>, syms: Seq<Symbol>, n: int, k: int) -> (r: int)
    requires
        0 <= n,
        0 <= k < row_position(base, bytes, syms, n),
    ensures
        0 <= r < n,
        row_position(base, bytes, syms, r) <= k < row_position(base, bytes, syms, r + 1),
    decreases n,
{
    if k < row_position(base, bytes, syms, n - 1) {
        lemma_row_above(base, bytes, syms, n - 1, k)
    } else {
        n - 1
    }
}

/// The bytes of the byte rows `a..b` of a section.
pub open spec fn window_bytes(bytes: Seq<u8>, a: int, b: int) -> Seq<u8> {
    bytes.subrange(16 * a, crate::sections::lesser(16 * b, bytes.len() as int))
}

/// The rows of a window of byte rows are the matching rows of the section.
pub proof fn lemma_window_rows(
    base: int,
    bytes: Seq<u8>,
    syms: Seq<Symbol>,
    a: int,
    b: int,
    n: int,
)
    requires
        0 <= a <= b <= rows_for(bytes.len() as int),
        0 <= n <= b - a,
    ensures
        rows_upto(base, bytes, syms, a + n) == rows_upto(base, bytes, syms, a) + rows_upto(
            base + 16 * a,
            window_bytes(bytes, a, b),
            syms,
            n,
        ),
    decreases n,
{
    let w = window_bytes(bytes, a, b);
    if n == 0 {
        assert(rows_upto(base, bytes, syms, a) + rows_upto(base + 16 * a, w, syms, 0) =~= rows_upto(
            base,
            bytes,
            syms,
            a,
        ));
    } else {
        lemma_window_rows(base, bytes, syms, a, b, n - 1);
        assert(row_slice(w, n - 1) =~= row_slice(bytes, a + n - 1));
        assert(headers_at(base + 16 * a, w, syms, n - 1) =~= headers_at(base, bytes, syms, a + n - 1));
        assert(byte_row(base + 16 * a, w, n - 1) == byte_row(base, bytes, a + n - 1));
        assert(rows_upto(base, bytes, syms, a + n) =~= rows_upto(base, bytes, syms, a) + rows_upto(
            base + 16 * a,
            w,
            syms,
            n,
        ));
    }
}

/// Materialises all rows of a section.
pub fn build_hex_rows(section: &DataSectionBytes, symbols: &SymbolMap) -> (rows: Vec<HexRow>)
    requires
        section.fits(),
    ensures
        hex_views(rows@) == hex_rows(section.base as int, section.bytes@, symbols@),
{
    let n: usize = section.row_count();
    let len: usize = section.bytes.len();
    let ghost base = section.base as int;
    let ghost bytes = section.bytes@;
    let ghost syms = symbols@;
    let mut rows: Vec<HexRow> = Vec::new();
    let mut row: usize = 0;
    assert(hex_views(rows@) =~= Seq::empty());
    while row < n
        invariant
            section.fits(),
            base == section.base,
            bytes == section.bytes@,
            syms == symbols@,
            len == bytes.len(),
            n == rows_for(len as int),
            row <= n,
            hex_views(rows@) == rows_upto(base, bytes, syms, row as int),
        decreases n - row,
    {
        let address = section.row_addr(row);
        let chunk = section.row_bytes(row);
        let end: u64 = address + chunk.len() as u64;
        let (from, to) = symbols.in_range(address, end);
        let ghost done = hex_views(rows@);
        let ghost inside = symbols_within(syms, address as int, end as int);
        let mut k: usize = from;
        while k < to
            invariant
                from <= k <= to <= symbols@.len(),
                syms == symbols@,
                inside == syms.subrange(from as int, to as int),
                hex_views(rows@) == done + inside.take(k - from).map_values(
                    |s: Symbol| header_of(s),
                ),
            decreases to - k,
        {
            let s = symbols.get(k);
            let ghost before = hex_views(rows@);
            rows.push(HexRow::SymbolHeader { address: s.address, name: s.display_name.clone() });
            proof {
                assert(hex_views(rows@) =~= before.push(header_of(*s)));
                assert(inside[k - from] == *s);
                assert(inside.take(k + 1 - from).map_values(|s: Symbol| header_of(s))
                    =~= inside.take(k - from).map_values(|s: Symbol| header_of(s)).push(
                    header_of(*s),
                ));
            }
            k += 1;
        }
        let ghost before = hex_views(rows@);
        rows.push(HexRow::Bytes { address, bytes: chunk });
        proof {
            assert(hex_views(rows@) =~= before.push(byte_row(base, bytes, row as int)));
            assert(inside.take(to - from) =~= inside);
            assert(rows_upto(base, bytes, syms, row + 1) =~= hex_views(rows@));
        }
        row += 1;
    }
    rows
}

} // verus!

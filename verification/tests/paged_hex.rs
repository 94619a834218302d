use glass_ui::hex::HexRow;
use glass_ui::paged_hex::{PagedHex, PAGE_BYTE_ROWS};
use glass_ui::sections::{DataSectionBytes, NativeSectionKind};
use glass_ui::symbols::{Symbol, SymbolKind, SymbolMap};
use std::sync::Arc;

fn data_section(base: u64, bytes_len: usize) -> DataSectionBytes {
    DataSectionBytes {
        base,
        bytes: Arc::new(vec![0u8; bytes_len]),
        kind: NativeSectionKind::Data,
    }
}

fn sym(addr: u64, name: &str) -> Symbol {
    Symbol {
        address: addr,
        size: 4,
        kind: SymbolKind::Object,
        display_name: name.to_string(),
        name: name.to_string(),
    }
}

fn symbol_map(syms: Vec<Symbol>) -> Arc<SymbolMap> {
    Arc::new(SymbolMap::from_symbols(syms))
}

#[test]
fn empty_section_yields_one_page_zero_rows() {
    let data = data_section(0x1000, 0);
    let p = PagedHex::new(data, symbol_map(vec![]), 4);
    assert_eq!(p.n_pages(), 1);
    assert_eq!(p.total_rows(), 0);
}

#[test]
fn single_page_no_symbols() {
    let data = data_section(0x1000, 32);
    let mut p = PagedHex::new(data, symbol_map(vec![]), 4);
    assert_eq!(p.n_pages(), 1);
    assert_eq!(p.total_rows(), 2);
    let (page, off) = p.page_for_row_blocking(0).expect("row 0");
    assert_eq!(off, 0);
    assert_eq!(page.len(), 2);
}

#[test]
fn single_page_with_symbol_at_start() {
    let data = data_section(0x1000, 32);
    let p = PagedHex::new(data, symbol_map(vec![sym(0x1000, "first")]), 4);
    assert_eq!(p.total_rows(), 3);
}

#[test]
fn symbols_before_section_do_not_shift_page_starts() {
    let data = data_section(0x1000, 32);
    let before = vec![
        sym(0x10, "text_fn_a"),
        sym(0x20, "text_fn_b"),
        sym(0x30, "text_fn_c"),
    ];
    let mut p = PagedHex::new(data, symbol_map(before), 4);
    assert_eq!(p.page_start(0), 0, "leading symbols must not shift page 0");
    assert_eq!(p.total_rows(), 2, "no in-section headers expected");
    let (_page, off) = p.page_for_row_blocking(0).expect("row 0");
    assert_eq!(off, 0);
}

#[test]
fn symbols_after_section_do_not_inflate_total_rows() {
    let data = data_section(0x1000, 32);
    let after = vec![sym(0x1020, "next_sec_a"), sym(0x2000, "next_sec_b")];
    let p = PagedHex::new(data, symbol_map(after), 4);
    assert_eq!(p.total_rows(), 2, "out-of-section symbols must not add rows");
}

#[test]
fn page_boundary_byte_row_addresses_are_correct() {
    let bytes_len = (PAGE_BYTE_ROWS as usize * 3 + 7) * 16;
    let data = data_section(0x1000, bytes_len);
    let p = PagedHex::new(data, symbol_map(vec![]), 4);
    assert_eq!(p.n_pages(), 4);
    assert_eq!(p.total_rows(), (PAGE_BYTE_ROWS * 3 + 7));
    assert_eq!(p.page_start(0), 0);
    assert_eq!(p.page_start(1), PAGE_BYTE_ROWS);
    assert_eq!(p.page_start(2), PAGE_BYTE_ROWS * 2);
    assert_eq!(p.page_start(3), PAGE_BYTE_ROWS * 3);
    assert_eq!(p.page_start(4), PAGE_BYTE_ROWS * 3 + 7);
}

#[test]
fn symbol_in_middle_shifts_following_page_starts() {
    let bytes_len = (PAGE_BYTE_ROWS as usize * 3) * 16;
    let data = data_section(0x1000, bytes_len);
    let mid_addr = 0x1000 + (PAGE_BYTE_ROWS as u64 / 2) * 16;
    let p = PagedHex::new(data, symbol_map(vec![sym(mid_addr, "mid")]), 4);
    assert_eq!(p.page_start(0), 0);
    assert_eq!(p.page_start(1), PAGE_BYTE_ROWS + 1);
    assert_eq!(p.page_start(2), PAGE_BYTE_ROWS * 2 + 1);
    assert_eq!(p.page_start(3), PAGE_BYTE_ROWS * 3 + 1);
}

#[test]
fn page_of_inverts_page_starts() {
    let bytes_len = (PAGE_BYTE_ROWS as usize * 3) * 16;
    let data = data_section(0x1000, bytes_len);
    let p = PagedHex::new(data, symbol_map(vec![]), 4);
    assert_eq!(p.page_of(0), Some(0));
    assert_eq!(p.page_of(PAGE_BYTE_ROWS - 1), Some(0));
    assert_eq!(p.page_of(PAGE_BYTE_ROWS), Some(1));
    assert_eq!(p.page_of(PAGE_BYTE_ROWS * 2), Some(2));
    assert_eq!(p.page_of(PAGE_BYTE_ROWS * 3 - 1), Some(2));
    assert_eq!(p.page_of(PAGE_BYTE_ROWS * 3), None);
}

#[test]
fn paged_hex_lru_evicts_oldest_under_cap() {
    let bytes_len = (PAGE_BYTE_ROWS as usize * 5) * 16;
    let data = data_section(0x1000, bytes_len);
    let mut p = PagedHex::new(data, symbol_map(vec![]), 2);
    let _ = p.ensure_page_built(0);
    let _ = p.ensure_page_built(1);
    let _ = p.ensure_page_built(2);
    assert!(p.is_cached(1));
    assert!(p.is_cached(2));
    assert!(!p.is_cached(0));
}

#[test]
fn next_and_prev_byte_row_traverse_pages() {
    let bytes_len = (PAGE_BYTE_ROWS as usize * 3) * 16;
    let data = data_section(0x1000, bytes_len);
    let boundary_addr = 0x1000 + PAGE_BYTE_ROWS as u64 * 16;
    let mut p = PagedHex::new(data, symbol_map(vec![sym(boundary_addr, "boundary")]), 4);
    assert_eq!(p.total_rows(), PAGE_BYTE_ROWS * 3 + 1);
    assert_eq!(
        p.next_byte_row_at_or_after(PAGE_BYTE_ROWS),
        Some(PAGE_BYTE_ROWS + 1)
    );
    assert_eq!(p.next_byte_row_at_or_after(5), Some(5));
    assert_eq!(
        p.prev_byte_row_at_or_before(PAGE_BYTE_ROWS),
        Some(PAGE_BYTE_ROWS - 1)
    );
    let last = p.total_rows() - 1;
    assert_eq!(p.prev_byte_row_at_or_before(last), Some(last));
}

#[test]
fn addr_at_returns_address_for_byte_rows_only() {
    let data = data_section(0x1000, 64);
    let mut p = PagedHex::new(data, symbol_map(vec![sym(0x1010, "x")]), 4);
    assert_eq!(p.addr_at(0), Some(0x1000));
    assert_eq!(p.addr_at(1), None);
    assert_eq!(p.addr_at(2), Some(0x1010));
}

#[test]
fn row_for_addr_finds_byte_row_after_header() {
    let data = data_section(0x1000, 64);
    let mut p = PagedHex::new(data, symbol_map(vec![sym(0x1010, "x")]), 4);
    assert_eq!(p.total_rows(), 5);
    assert_eq!(p.row_for_addr(0x1010), Some(2));
    assert_eq!(p.row_for_addr(0x1018), Some(2));
    assert_eq!(p.row_for_addr(0x1000), Some(0));
    assert_eq!(p.row_for_addr(0x0fff), None);
    assert_eq!(p.row_for_addr(0x1040), None);
}

#[test]
fn hex_page_holds_the_bytes_of_its_rows() {
    let bytes: Vec<u8> = (0u8..40).collect();
    let data = DataSectionBytes {
        base: 0x2000,
        bytes: Arc::new(bytes),
        kind: NativeSectionKind::Rodata,
    };
    let mut p = PagedHex::new(data, symbol_map(vec![sym(0x2014, "inner")]), 4);
    assert_eq!(p.total_rows(), 4);
    let (page, off) = p.page_for_row_blocking(3).expect("last row");
    assert_eq!(off, 3);
    assert!(matches!(&page[1], HexRow::SymbolHeader { address: 0x2014, name } if name == "inner"));
    match &page[3] {
        HexRow::Bytes { address, bytes } => {
            assert_eq!(*address, 0x2020);
            assert_eq!(bytes.to_vec(), vec![32u8, 33, 34, 35, 36, 37, 38, 39]);
        }
        other => panic!("unexpected row {:?}", other),
    }
}

#[test]
fn hex_cached_lookup_never_builds() {
    let data = data_section(0x1000, PAGE_BYTE_ROWS as usize * 2 * 16);
    let mut p = PagedHex::new(data, symbol_map(vec![]), 4);
    assert!(p.page_for_row_if_cached(0).is_none());
    assert_eq!(p.addr_at_if_cached(0), None);
    assert!(!p.is_cached(0));
    let _ = p.ensure_page_built(0);
    assert!(p.page_for_row_if_cached(0).is_some());
    assert_eq!(p.addr_at_if_cached(1), Some(0x1010));
    assert!(p.page_for_row_if_cached(PAGE_BYTE_ROWS).is_none());
}

#[test]
fn hex_use_keeps_a_page_from_eviction() {
    let data = data_section(0x1000, PAGE_BYTE_ROWS as usize * 3 * 16);
    let mut p = PagedHex::new(data, symbol_map(vec![]), 2);
    let _ = p.ensure_page_built(0);
    let _ = p.ensure_page_built(1);
    let _ = p.ensure_page_built(0);
    let _ = p.ensure_page_built(2);
    assert!(p.is_cached(0));
    assert!(!p.is_cached(1));
}

#[test]
fn hex_rows_end() {
    let data = data_section(0x1000, 16);
    let mut p = PagedHex::new(data, symbol_map(vec![]), 4);
    assert!(p.page_for_row_blocking(1).is_none());
    assert_eq!(p.next_byte_row_at_or_after(1), None);
    assert_eq!(p.prev_byte_row_at_or_before(1), None);
}

use glass_ui::listing::{
    ArrowDirection, ArrowRole, ArrowStyle, ListingRow, RegisterClass, WordInsn, WordOperand,
};
use glass_ui::paged_listing::{count_rows, PagedListing, PAGE_INSNS};
use glass_ui::sections::{Architecture, DecodedInsn, TextSectionBytes};
use glass_ui::symbols::{Symbol, SymbolKind, SymbolMap};
use std::sync::Arc;

const LANES: u8 = 8;

fn syms(addrs: &[(u64, &str)]) -> Arc<SymbolMap> {
    let vec: Vec<Symbol> = addrs
        .iter()
        .map(|(a, n)| Symbol {
            address: *a,
            size: 4,
            kind: SymbolKind::Function,
            display_name: n.to_string(),
            name: n.to_string(),
        })
        .collect();
    Arc::new(SymbolMap::from_symbols(vec))
}

fn plain() -> WordInsn {
    WordInsn {
        terminator: false,
        adrp: false,
        unconditional_branch: false,
        conditional_branch: false,
        operands: Vec::new(),
        address_operand: None,
        fused_target: None,
    }
}

fn branch(to: u64) -> WordInsn {
    WordInsn {
        terminator: true,
        unconditional_branch: true,
        operands: vec![WordOperand::BranchTarget(to)],
        address_operand: Some(to),
        ..plain()
    }
}

fn nops(n: usize) -> Arc<Vec<Option<WordInsn>>> {
    Arc::new((0..n).map(|_| Some(plain())).collect())
}

fn text_of(base: u64, words: &[u32]) -> TextSectionBytes {
    let mut bytes = Vec::new();
    for w in words {
        bytes.extend_from_slice(&w.to_le_bytes());
    }
    TextSectionBytes {
        base,
        bytes: Arc::new(bytes),
        precomputed: None,
        arch: Architecture::Aarch64,
    }
}

fn nop_section(base: u64, n: usize) -> TextSectionBytes {
    text_of(base, &vec![0xD503201Fu32; n])
}

#[test]
fn empty_section_zero_rows() {
    let text = nop_section(0x1000, 0);
    let p = PagedListing::new(text, syms(&[]), nops(0), LANES, 4);
    assert_eq!(p.total_rows(), 0);
}

#[test]
fn single_page_no_symbols_no_terminators() {
    let text = nop_section(0x1000, 8);
    let p = PagedListing::new(text, syms(&[]), nops(8), LANES, 4);
    assert_eq!(p.total_rows(), 8);
    assert_eq!(p.n_pages(), 1);
}

#[test]
fn symbol_at_first_insn_adds_header_row() {
    let text = nop_section(0x1000, 4);
    let p = PagedListing::new(text, syms(&[(0x1000, "foo")]), nops(4), LANES, 4);
    assert_eq!(p.total_rows(), 5);
}

#[test]
fn rows_are_counted_before_the_listing_is_built() {
    let text = nop_section(0x1000, 3);
    let words = vec![Some(plain()), Some(branch(0x1000)), None];
    let symbols = syms(&[(0x1000, "foo"), (0x1005, "thumb"), (0x4000, "far")]);
    assert_eq!(count_rows(&text, &symbols, &words), Some(6));
    let p = PagedListing::new(text, symbols, Arc::new(words), LANES, 4);
    assert_eq!(p.total_rows(), 6);
    assert_eq!(count_rows(&nop_section(0x1000, 0), &syms(&[]), &Vec::new()), Some(0));
}

#[test]
fn arrows_align_with_instruction_rows_past_off_boundary_symbols() {
    let words: [u32; 5] = [
        0xD503201F, // nop            @0x1000
        0x14000003, // b 0x1010       @0x1004
        0xD503201F, // nop            @0x1008
        0xD503201F, // nop            @0x100c
        0xD503201F, // nop (target)   @0x1010
    ];
    let text = text_of(0x1000, &words);
    let decoded = Arc::new(vec![
        Some(plain()),
        Some(branch(0x1010)),
        Some(plain()),
        Some(plain()),
        Some(plain()),
    ]);
    let mut p = PagedListing::new(text, syms(&[(0x1002, "between")]), decoded, LANES, 4);
    let page = p.ensure_page_built(0);
    let base_row = p.page_start(0);
    let branch_row = page
        .iter()
        .enumerate()
        .find_map(|(off, row)| match row {
            ListingRow::Instruction { address, .. } if *address == 0x1004 => {
                Some(base_row + off as u32)
            }
            _ => None,
        })
        .expect("branch instruction row present");
    let segs = p.arrows_for(branch_row);
    assert!(!segs.is_empty(), "an arrow segment on the branch row");
    assert!(
        segs.iter().any(|s| matches!(s.role, ArrowRole::Source)),
        "Source arrow must sit on the branch row {branch_row}, not be shifted"
    );
}

#[test]
fn x86_precomputed_paging_is_consistent() {
    let bytes = vec![
        0x48, 0x89, 0xd8, // mov rax, rbx
        0x48, 0x8d, 0x05, 0x00, 0x01, 0x00, 0x00, // lea rax,[rip+0x100]
        0xe8, 0x10, 0x00, 0x00, 0x00, // call rel32
        0xc3, // ret
    ];
    let base = 0x1000u64;
    let insn = |address: u64, size: u32, terminator: bool, branch_target: Option<u64>| DecodedInsn {
        address,
        size,
        terminator,
        branch_target,
        pcrel_target: None,
        fused_target: None,
    };
    let n_insns = 4usize;
    let make = |far_symbol: bool| {
        let text = TextSectionBytes {
            base,
            bytes: Arc::new(bytes.clone()),
            precomputed: Some(Arc::new(vec![
                insn(0x1000, 3, false, None),
                insn(0x1003, 7, false, None),
                insn(0x100a, 5, false, Some(0x101f)),
                insn(0x100f, 1, true, None),
            ])),
            arch: Architecture::X86_64,
        };
        let mut sym_list = vec![(0x1000u64, "start")];
        if far_symbol {
            sym_list.push((0x9000, "other_section"));
        }
        let decoded = Arc::new(vec![None, None, None, None]);
        PagedListing::new(text, syms(&sym_list), decoded, LANES, 4)
    };
    let mut p = make(false);
    let summed: u32 = (0..p.n_pages()).map(|pi| p.ensure_page_built(pi).len() as u32).sum();
    assert_eq!(summed, p.total_rows(), "page rows must sum to total_rows");
    assert!(
        p.total_rows() as usize >= n_insns + 1,
        "expected all {n_insns} insns + header, got {}",
        p.total_rows()
    );
    for r in 0..p.total_rows() {
        let (page, off) = p.page_for_row_blocking(r).expect("row resolves");
        assert!(off < page.len(), "row {r}: off {off} >= len {}", page.len());
    }
    assert_eq!(
        make(true).total_rows(),
        p.total_rows(),
        "out-of-section symbol must not inflate row count"
    );
}

#[test]
fn page_of_inverts_page_row_starts() {
    let n = (PAGE_INSNS * 3) as usize;
    let p = PagedListing::new(nop_section(0x1000, n), syms(&[]), nops(n), LANES, 4);
    assert_eq!(p.n_pages(), 3);
    assert_eq!(p.total_rows(), PAGE_INSNS * 3);
    assert_eq!(p.page_of(0), Some(0));
    assert_eq!(p.page_of(PAGE_INSNS - 1), Some(0));
    assert_eq!(p.page_of(PAGE_INSNS), Some(1));
    assert_eq!(p.page_of(PAGE_INSNS * 2 - 1), Some(1));
    assert_eq!(p.page_of(PAGE_INSNS * 2), Some(2));
    assert_eq!(p.page_of(PAGE_INSNS * 3), None);
}

#[test]
fn row_for_addr_finds_instruction() {
    let text = nop_section(0x1000, 8);
    let mut p = PagedListing::new(text, syms(&[(0x1004, "mid")]), nops(8), LANES, 4);
    assert_eq!(p.row_for_addr(0x1000), Some(0));
    assert_eq!(p.row_for_addr(0x1004), Some(2));
    assert_eq!(p.row_for_addr(0x1008), Some(3));
    assert_eq!(p.row_for_addr(0x999), None);
}

#[test]
fn paged_listing_lru_evicts_oldest_under_cap() {
    let n = (PAGE_INSNS * 5) as usize;
    let mut p = PagedListing::new(nop_section(0x1000, n), syms(&[]), nops(n), LANES, 2);
    let _ = p.ensure_page_built(0);
    let _ = p.ensure_page_built(1);
    let _ = p.ensure_page_built(2);
    assert!(p.is_cached(1));
    assert!(p.is_cached(2));
    assert!(!p.is_cached(0));
}

#[test]
fn page_for_row_blocking_returns_correct_offset() {
    let n = (PAGE_INSNS * 2 + 5) as usize;
    let mut p = PagedListing::new(nop_section(0x1000, n), syms(&[]), nops(n), LANES, 4);
    let (page0, off0) = p.page_for_row_blocking(0).expect("row 0");
    assert_eq!(off0, 0);
    assert!(matches!(page0[0], ListingRow::Instruction { .. }));
    let (_, off1) = p.page_for_row_blocking(PAGE_INSNS).expect("row PAGE_INSNS");
    assert_eq!(off1, 0);
}

#[test]
fn terminator_adds_a_separator_and_arrow_ends_on_target() {
    // b 0x1008; nop; nop(target)
    let text = text_of(0x1000, &[0x14000002, 0xD503201F, 0xD503201F]);
    let decoded = Arc::new(vec![Some(branch(0x1008)), Some(plain()), Some(plain())]);
    let mut p = PagedListing::new(text, syms(&[(0x1000, "f")]), decoded, LANES, 4);
    // header, b, separator, nop, nop
    assert_eq!(p.total_rows(), 5);
    let page = p.ensure_page_built(0);
    assert!(matches!(&page[0], ListingRow::SymbolHeader { address: 0x1000, name } if name == "f"));
    assert!(matches!(page[2], ListingRow::BasicBlockSeparator { .. }));
    let source = p.arrows_for(1);
    assert_eq!(source.len(), 1);
    assert_eq!(source[0].role, ArrowRole::Source);
    assert_eq!(source[0].style, ArrowStyle::Solid);
    assert_eq!(source[0].direction, ArrowDirection::Down);
    let pass = p.arrows_for(2);
    assert_eq!(pass.len(), 1);
    assert_eq!(pass[0].role, ArrowRole::Pass);
    let target = p.arrows_for(4);
    assert_eq!(target.len(), 1);
    assert_eq!(target[0].role, ArrowRole::Target);
    assert!(p.arrows_for(0).is_empty());
}

#[test]
fn crossing_branches_get_lanes_of_their_own() {
    // two branches into one function that overlap
    let text = text_of(0x1000, &[0x14000003, 0x14000003, 0xD503201F, 0xD503201F, 0xD503201F]);
    let decoded = Arc::new(vec![
        Some(branch(0x100c)),
        Some(branch(0x1010)),
        Some(plain()),
        Some(plain()),
        Some(plain()),
    ]);
    let p = PagedListing::new(text, syms(&[]), decoded, LANES, 4);
    let row = p.arrows_for(2);
    assert_eq!(row.len(), 2);
    assert_ne!(row[0].lane, row[1].lane);
}

#[test]
fn listing_steps_between_instructions() {
    let text = nop_section(0x1000, 3);
    let mut p = PagedListing::new(text, syms(&[(0x1004, "mid")]), nops(3), LANES, 4);
    assert_eq!(p.next_instruction_at_or_after(1), Some(2));
    assert_eq!(p.prev_instruction_at_or_before(1), Some(0));
    assert_eq!(p.next_instruction_at_or_after(4), None);
    assert_eq!(p.addr_at(1), None);
    assert_eq!(p.addr_at(3), Some(0x1008));
    assert_eq!(p.addr_at(4), None);
}

#[test]
fn page_snapshot_remembers_page_addresses() {
    let n = PAGE_INSNS as usize + 1;
    let mut words: Vec<Option<WordInsn>> = (0..n).map(|_| Some(plain())).collect();
    words[0] = Some(WordInsn {
        adrp: true,
        operands: vec![
            WordOperand::Register { class: RegisterClass::X, index: 3 },
            WordOperand::BranchTarget(0x8000),
        ],
        ..plain()
    });
    let p = PagedListing::new(nop_section(0x1000, n), syms(&[]), Arc::new(words), LANES, 4);
    assert_eq!(p.page_snapshot(0), None);
    let snap = p.page_snapshot(1).expect("a page address is known");
    assert_eq!(snap[3], Some(0x8000));
    assert_eq!(snap[4], None);
}

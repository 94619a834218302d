use glass_ui::bin_search::{
    atoms_for_arch, preview_range, scans_data, search_sections, Hit, SectionHits,
};
use glass_ui::bundle::LoadedBundle;
use glass_ui::container::{Container, NativeBinary, Section};
use glass_ui::ids::ArtifactId;
use glass_ui::leaf::{LeafId, LeafKind};
use glass_ui::loader::{snapshot_arm64, BinaryInput};
use glass_ui::palette::{
    typed_insn, BinaryGrammar, Palette, PaletteAction, PaletteMode, ScanHits,
};
use glass_ui::search::{rank_entries, scoped_entries, SearchEntry, SearchJump};
use glass_ui::sections::{
    Architecture, DataSectionBytes, DecodedInsn, NativeSectionKind, SectionKind, TextSectionBytes,
};
use glass_ui::table::Table;
use glass_ui::xref::{
    IndexPhase, PaletteScope, PaletteScopeSource, SectionKey, XrefIndexState, XrefProgress,
    XrefStore,
};
use std::sync::Arc;

fn entry(display: &str) -> SearchEntry {
    SearchEntry {
        display: display.to_string(),
        jump: SearchJump::SmaliClass { class_jni: display.to_string() },
    }
}

fn entries(names: &[&str]) -> Vec<SearchEntry> {
    names.iter().map(|n| entry(n)).collect()
}

fn shown(list: &Vec<SearchEntry>) -> Vec<&str> {
    list.iter().map(|e| e.display.as_str()).collect()
}

#[test]
fn scoped_queries_ignore_case_and_rank_by_tier_and_length() {
    let all = entries(&["MyFooBar", "foobar", "Foo", "bar", "fooBarBaz"]);
    let r = scoped_entries(&all, "FOO");
    assert_eq!(shown(&r), vec!["Foo", "foobar", "fooBarBaz", "MyFooBar"]);
    assert_eq!(scoped_entries(&all, "zzz").len(), 0);
    let every = scoped_entries(&all, "");
    assert_eq!(shown(&every), vec!["Foo", "bar", "foobar", "MyFooBar", "fooBarBaz"]);
}

#[test]
fn lower_casing_reaches_beyond_ascii() {
    let all = entries(&["ÄPFEL"]);
    assert_eq!(scoped_entries(&all, "äpf").len(), 1);
}

#[test]
fn ranking_is_capped() {
    let hays: Vec<String> = (0..80).map(|i| format!("x{}", i)).collect();
    let lens: Vec<u64> = (0..80u64).map(|i| 80 - i).collect();
    let r = rank_entries(&hays, &lens, "x");
    assert_eq!(r.len(), 50);
    assert_eq!(r[0], 79);
    assert_eq!(r[49], 30);
}

fn key(raw: u8, name: &str) -> SectionKey {
    (ArtifactId::from_raw([raw; 32]), name.to_string())
}

fn code(base: u64, arch: Architecture, insns: Option<Vec<u64>>) -> TextSectionBytes {
    TextSectionBytes {
        base,
        bytes: Arc::new(vec![0; 16]),
        precomputed: insns.map(|v| {
            Arc::new(
                v.into_iter()
                    .map(|address| DecodedInsn {
                        address,
                        size: 2,
                        terminator: false,
                        branch_target: None,
                        pcrel_target: None,
                        fused_target: None,
                    })
                    .collect(),
            )
        }),
        arch,
    }
}

fn hits(label: &str, starts: &[usize]) -> SectionHits {
    SectionHits {
        label: label.to_string(),
        hits: starts
            .iter()
            .map(|s| Hit { start: *s, length: 4, preview: format!("@{}", s) })
            .collect(),
    }
}

#[test]
fn atoms_apply_by_architecture() {
    let any = vec![None];
    assert_eq!(atoms_for_arch(&any, Architecture::X86_64), Some(0));
    let two = vec![Some(Architecture::Aarch64), Some(Architecture::Arm)];
    assert_eq!(atoms_for_arch(&two, Architecture::Arm), Some(1));
    assert_eq!(atoms_for_arch(&two, Architecture::X86_64), None);
}

#[test]
fn previews_stop_at_the_section_end() {
    assert_eq!(preview_range(4, 4, 16), (4, 8));
    assert_eq!(preview_range(14, 4, 16), (14, 16));
}

#[test]
fn search_collects_sorts_and_filters() {
    let mut text: Table<SectionKey, TextSectionBytes> = Table::new();
    text.insert(key(1, ".text"), code(0x1000, Architecture::Arm, Some(vec![0x1000, 0x1004])));
    text.insert(key(2, ".text"), code(0x20, Architecture::Aarch64, None));
    let mut data: Table<SectionKey, DataSectionBytes> = Table::new();
    data.insert(
        key(1, ".data"),
        DataSectionBytes {
            base: 0x5000,
            bytes: Arc::new(vec![0; 8]),
            kind: NativeSectionKind::Data,
        },
    );
    let text_hits = vec![hits("zlib", &[0, 2, 4]), hits("alib", &[8, 0x10])];
    let data_hits = vec![hits("zlib", &[1])];
    let any = vec![None];
    let o = search_sections("c0 03", &any, &text, &data, false, &text_hits, &data_hits);
    assert!(o.error.is_none());
    let rows: Vec<(String, String)> =
        o.result.matches.iter().map(|m| (m.section.clone(), m.address.clone())).collect();
    let want = [
        ("alib · .text", "0x28"),
        ("alib · .text", "0x30"),
        ("zlib · .data", "0x5001"),
        ("zlib · .text", "0x1000"),
        ("zlib · .text", "0x1004"),
    ];
    assert_eq!(rows.len(), want.len());
    for (have, (section, address)) in rows.iter().zip(want.iter()) {
        assert_eq!(have.0, *section);
        assert_eq!(have.1, *address);
    }
    assert_eq!(o.sources[2].1, ".data");
    assert!(o.sources[0].0.same(&ArtifactId::from_raw([2; 32])));
    assert_eq!(o.result.total, 5);
    assert_eq!(o.result.shown, 5);
    assert_eq!(o.result.artifact, "(all artifacts)");
    assert_eq!(o.result.pattern, "c0 03");

    let arm_only = vec![Some(Architecture::Arm)];
    let code_only = search_sections("p", &arm_only, &text, &data, true, &text_hits, &data_hits);
    assert_eq!(code_only.result.total, 2);
    let nothing = vec![hits("zlib", &[2]), hits("alib", &[])];
    let missed = search_sections("p", &arm_only, &text, &data, true, &nothing, &data_hits);
    assert_eq!(
        missed.error.as_deref(),
        Some("no matches across 1 sections (16 bytes scanned)")
    );
    let x86 = vec![Some(Architecture::X86_64)];
    let none = search_sections("p", &x86, &text, &data, true, &text_hits, &data_hits);
    assert_eq!(
        none.error.as_deref(),
        Some("no native sections to scan (bundle has 2 text + 1 data sections)")
    );
}

#[test]
fn data_sections_are_scanned_by_kind() {
    let data = |base: u64, len: usize, kind: NativeSectionKind| DataSectionBytes {
        base,
        bytes: Arc::new(vec![0; len]),
        kind,
    };
    assert!(scans_data(&data(1, 1, NativeSectionKind::Data), false));
    assert!(!scans_data(&data(1, 1, NativeSectionKind::Data), true));
    assert!(!scans_data(&data(0, 1, NativeSectionKind::Data), false));
    assert!(!scans_data(&data(1, 0, NativeSectionKind::Data), false));
    assert!(!scans_data(&data(1, 1, NativeSectionKind::Bss), false));
    assert!(!scans_data(&data(1, 1, NativeSectionKind::Debug), false));
}

fn native_bundle() -> LoadedBundle {
    let section = |name: &str, address: u64, kind: SectionKind| Section {
        name: name.to_string(),
        address,
        size: 16,
        kind,
        bytes: Arc::new(vec![0; 16]),
        entropy: 0,
        insns: None,
    };
    let input = BinaryInput {
        path: "p".to_string(),
        file_name: Some("p".to_string()),
        binary: NativeBinary {
            bytes: b"p".to_vec(),
            container: Container {
                architecture: Architecture::Aarch64,
                sections: vec![
                    section(".text", 0x1000, SectionKind::Text),
                    section(".data", 0x2000, SectionKind::Data),
                ],
                objc_classes: Vec::new(),
                objc_categories: Vec::new(),
                swift_types: Vec::new(),
            },
            symbols: Vec::new(),
        },
    };
    snapshot_arm64(&input, &|_kind: &LeafKind, _source: Option<&str>| "icon")
}

#[test]
fn byte_search_runs_and_opens_its_matches() {
    let b = native_bundle();
    let mut p = Palette::new();
    assert!(p.bin_code_only);
    p.toggle_palette(Some(&b), &Vec::new());
    assert!(p.open && p.focused);
    assert!(p.bin_artifact.expect("picked").same(&ArtifactId::from_bytes(b"p")));
    p.palette_set_mode_binary();
    assert!(matches!(p.palette_activate(Some(&b), &Vec::new()), PaletteAction::RunSearch));
    let found = ScanHits { text: vec![hits("p", &[4])], data: vec![hits("p", &[8])] };
    p.run_palette_bin_search(&Err("bad pattern".to_string()), Some(&b), &found);
    assert_eq!(p.bin_error.as_deref(), Some("bad pattern"));
    assert!(p.bin_results.is_none());
    p.run_palette_bin_search(&Ok(vec![None]), None, &found);
    assert_eq!(p.bin_error.as_deref(), Some("no bundle loaded"));
    assert!(!p.palette_toggle_bin_code_only());
    p.palette_handle_key("ff".to_string(), &Vec::new(), Vec::new());
    p.run_palette_bin_search(&Ok(vec![None]), Some(&b), &found);
    assert!(p.bin_error.is_none());
    assert_eq!(p.bin_results.as_ref().expect("results").total, 2);
    // sorted by section: data first
    match p.palette_activate(Some(&b), &Vec::new()) {
        PaletteAction::OpenHex { section, addr, .. } => {
            assert_eq!(section, ".data");
            assert_eq!(addr, 0x2008);
        }
        _ => panic!("a data match opens as bytes"),
    }
    assert!(!p.open);
    p.toggle_palette(Some(&b), &Vec::new());
    assert_eq!(p.palette_move(1), Some(1));
    match p.palette_bin_activate(Some(&b)) {
        PaletteAction::OpenListing { section, addr, .. } => {
            assert_eq!(section, ".text");
            assert_eq!(addr, 0x1004);
        }
        _ => panic!("a code match opens as a listing"),
    }
    assert!(p.palette_toggle_bin_code_only());
    assert!(matches!(p.palette_bin_activate(None), PaletteAction::Nothing));
}

#[test]
fn selection_moves_within_the_list() {
    let all = entries(&["a", "b", "c"]);
    let mut p = Palette::new();
    p.toggle_palette(None, &all);
    assert_eq!(p.list_len, 3);
    assert_eq!(p.palette_move(-1), None);
    assert_eq!(p.palette_move(2), Some(2));
    assert_eq!(p.palette_move(5), None);
    assert_eq!(p.selected, 2);
    assert!(p.refresh_palette_list(&entries(&["a"])));
    assert_eq!(p.selected, 0);
    assert!(!p.refresh_palette_list(&entries(&["a"])));
    assert_eq!(p.palette_move(i32::MIN), None);
}

#[test]
fn completions_replace_the_instruction_being_typed() {
    assert_eq!(typed_insn("mov w0, #1 ;  re"), "re");
    assert_eq!(typed_insn("  mov"), "mov");
    assert_eq!(typed_insn(";"), "");
    let mut p = Palette::new();
    p.palette_set_mode_binary();
    p.palette_set_bin_grammar(BinaryGrammar::Asm, Vec::new());
    p.palette_handle_key(
        "nop; re".to_string(),
        &Vec::new(),
        vec!["ret".to_string(), "retaa".to_string()],
    );
    assert_eq!(p.asm_candidates.len(), 2);
    assert_eq!(p.palette_move(1), None);
    assert_eq!(p.asm_selected, 1);
    assert_eq!(p.completed_query().as_deref(), Some("nop; retaa"));
    p.palette_asm_commit_template(vec!["retaa".to_string()]);
    assert_eq!(p.bin_query, "nop; retaa");
    assert_eq!(p.asm_selected, 0);
    p.palette_toggle_bin_grammar(vec!["x".to_string()]);
    assert_eq!(p.bin_grammar, BinaryGrammar::Bytes);
    assert!(p.asm_candidates.is_empty());
    assert_eq!(p.completed_query(), None);
    p.palette_asm_move(1);
    assert_eq!(p.asm_selected, 0);
}

fn scope(pending: bool) -> PaletteScope {
    PaletteScope {
        label: "Callers of f".to_string(),
        entries: Arc::new(entries(&["one", "two"])),
        progress: if pending {
            Some(XrefProgress { label: "Indexing".to_string(), current: 0, total: 2 })
        } else {
            None
        },
        source: PaletteScopeSource::DexCallers { method_key: "f".to_string() },
    }
}

#[test]
fn scopes_fill_when_their_index_is_ready() {
    let mut p = Palette::new();
    let mut store = XrefStore::new();
    assert!(p.refresh_xref_scope_if_pending(Some(&store), Vec::new()));
    assert!(p.open_scoped_palette(scope(true)));
    assert_eq!(p.list_len, 2);
    assert_eq!(store.phase_of(&p.scope.as_ref().expect("scope").source), IndexPhase::Waiting);
    assert!(!p.refresh_xref_scope_if_pending(Some(&store), Vec::new()));
    assert_eq!(p.scope.as_ref().expect("scope").progress.as_ref().map(|q| q.current), Some(0));
    store.dex_callers = XrefIndexState::Building(XrefProgress {
        label: "Indexing".to_string(),
        current: 64,
        total: 100,
    });
    assert!(!p.refresh_xref_scope_if_pending(Some(&store), entries(&["early"])));
    let shown = p.scope.as_ref().expect("scope");
    assert_eq!(shown.progress.as_ref().map(|q| (q.current, q.total)), Some((64, 100)));
    assert_eq!(shown.entries.len(), 2);
    store.dex_callers = XrefIndexState::Ready(Arc::new(Table::new()));
    assert!(p.refresh_xref_scope_if_pending(Some(&store), entries(&["three"])));
    assert_eq!(p.list_len, 1);
    assert!(p.scope.as_ref().expect("scope").progress.is_none());
    assert!(p.refresh_xref_scope_if_pending(Some(&store), Vec::new()));
    p.clear_palette_scope(&entries(&["a", "b", "c"]));
    assert!(p.scope.is_none() && p.open);
    assert_eq!(p.list_len, 3);

    assert!(p.open_scoped_palette(scope(true)));
    store.dex_callers = XrefIndexState::Failed("no".to_string());
    assert!(p.refresh_xref_scope_if_pending(Some(&store), entries(&["x"])));
    assert_eq!(p.scope.as_ref().expect("scope").entries.len(), 2);
    p.close_palette();
    assert!(p.scope.is_none() && !p.open);
    assert!(!p.open_scoped_palette(scope(false)));
}

#[test]
fn entries_lead_to_leaves() {
    let b = native_bundle();
    let aid = ArtifactId::from_bytes(b"p");
    let mut p = Palette::new();
    let map = vec![SearchEntry {
        display: "map".to_string(),
        jump: SearchJump::SectionMap { artifact: aid },
    }];
    p.toggle_palette(Some(&b), &map);
    match p.palette_activate(Some(&b), &map) {
        PaletteAction::OpenLeaf { leaf } => assert_eq!(leaf, LeafId(0)),
        _ => panic!("the section map has a leaf"),
    }
    assert!(!p.open);
    let gone = entries(&["Lnope;"]);
    p.toggle_palette(Some(&b), &gone);
    assert!(matches!(p.palette_activate(Some(&b), &gone), PaletteAction::Nothing));
    assert!(!p.open);
    p.toggle_palette(Some(&b), &Vec::new());
    assert!(matches!(p.palette_activate(Some(&b), &Vec::new()), PaletteAction::Nothing));
    assert!(p.open);
    p.annotating = true;
    assert!(matches!(p.palette_activate(Some(&b), &gone), PaletteAction::CommitAnnotation));
    assert!(p.typing_text());
}

#[test]
fn modes_keep_their_state() {
    let mut p = Palette::new();
    p.palette_handle_key("abc".to_string(), &entries(&["abc"]), Vec::new());
    p.palette_set_mode_binary();
    p.palette_handle_key("c0".to_string(), &Vec::new(), Vec::new());
    p.palette_set_mode_text(&entries(&["abc"]));
    assert_eq!(p.mode, PaletteMode::Text);
    assert_eq!(p.query, "abc");
    assert_eq!(p.bin_query, "c0");
    assert_eq!(p.list_len, 1);
    assert!(Palette::builds_index(false, false, true));
    assert!(!Palette::builds_index(false, true, true));
}

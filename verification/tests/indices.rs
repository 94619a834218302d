use glass_ui::container::{section_entry_points, Section};
use glass_ui::ids::ArtifactId;
use glass_ui::leaf::{LeafId, LeafKind};
use glass_ui::listing::{WordInsn, WordOperand};
use glass_ui::order::{sort_dedup, sorted_order, str_before};
use glass_ui::packages::{split_jni_class_name, PkgBuilder};
use glass_ui::sections::{
    Architecture, DataSectionBytes, DecodedInsn, NativeSectionKind, SectionKind, TextSectionBytes,
};
use glass_ui::smali_index::{
    build_dex_callers, build_dex_field_refs, build_method_call_index, build_method_line_index,
    RefKind, RefScan,
};
use glass_ui::symbols::{Symbol, SymbolKind, SymbolMap};
use glass_ui::table::Table;
use glass_ui::tree::Node;
use glass_ui::xref::{
    build_native_xrefs, DataPeek, NativeScan, SectionKey, XrefIndexState, XrefProgress, XrefStore,
};
use std::collections::HashSet;
use std::sync::Arc;

fn progress() -> XrefProgress {
    XrefProgress { label: "test".to_string(), current: 0, total: 0 }
}

fn insn(address: u64, branch_target: Option<u64>, pcrel_target: Option<u64>) -> DecodedInsn {
    DecodedInsn {
        address,
        size: 4,
        terminator: false,
        branch_target,
        pcrel_target,
        fused_target: None,
    }
}

/// A Thumb function that branches on, calls back, loads from its pool and
/// returns.
fn armv7_sections() -> (ArtifactId, Table<SectionKey, TextSectionBytes>) {
    let aid = ArtifactId::from_raw([0u8; 32]);
    let mut text: Table<SectionKey, TextSectionBytes> = Table::new();
    text.insert(
        (aid, ".plt".to_string()),
        TextSectionBytes {
            base: 0x800,
            bytes: Arc::new(vec![0; 8]),
            precomputed: Some(Arc::new(vec![
                insn(0x800, Some(0x1000), None),
                insn(0x804, None, None),
            ])),
            arch: Architecture::Arm,
        },
    );
    text.insert(
        (aid, ".text".to_string()),
        TextSectionBytes {
            base: 0x1000,
            bytes: Arc::new(vec![0; 20]),
            precomputed: Some(Arc::new(vec![
                insn(0x1000, Some(0x100d), None),
                insn(0x1004, Some(0x801), None),
                insn(0x1008, None, Some(0x1010)),
                insn(0x100c, Some(0x1005), None),
            ])),
            arch: Architecture::Arm,
        },
    );
    (aid, text)
}

#[test]
fn build_native_xrefs_armv7_libtool_checker_nonempty() {
    let (aid, sections) = armv7_sections();
    assert!(sections.len() > 0, "expected at least one text section");
    let data: Table<SectionKey, DataSectionBytes> = Table::new();
    let xrefs = build_native_xrefs(&sections, &data, &Table::new(), &mut progress());
    let per_artifact = xrefs.get(&aid).expect("artifact entry");
    assert!(
        !per_artifact.is_empty(),
        "expected ARMv7 xref builder to record at least one target"
    );
    let in_section = |addr: u64| {
        (0..sections.len()).any(|i| {
            let t = sections.entry(i).1;
            addr >= t.base && addr < t.base + (t.bytes.len() as u64)
        })
    };
    for sites in per_artifact.values() {
        for s in sites {
            assert!(in_section(*s), "caller-site 0x{:x} outside any text section", s);
        }
    }
}

#[test]
fn build_native_xrefs_armv7_branch_targets_have_mode_bit_stripped() {
    let (aid, sections) = armv7_sections();
    let data: Table<SectionKey, DataSectionBytes> = Table::new();
    let xrefs = build_native_xrefs(&sections, &data, &Table::new(), &mut progress());
    let per_artifact = xrefs.get(&aid).expect("artifact entry");
    let mut expected_targets: HashSet<u64> = HashSet::new();
    for i in 0..sections.len() {
        let Some(p) = sections.entry(i).1.precomputed.as_ref() else { continue };
        for insn in p.iter() {
            if let Some(t) = insn.branch_target {
                expected_targets.insert(t & !1u64);
            }
        }
    }
    assert!(!expected_targets.is_empty(), "no branch targets in fixture");
    for t in &expected_targets {
        assert!(
            per_artifact.contains_key(t),
            "branch target 0x{:x} (mode-bit stripped) missing from xref index",
            t
        );
        assert_eq!(t & 1, 0);
    }
}

#[test]
fn instructions_out_of_order_are_indexed() {
    let aid = ArtifactId::from_raw([2u8; 32]);
    let mut text: Table<SectionKey, TextSectionBytes> = Table::new();
    text.insert(
        (aid, ".text".to_string()),
        TextSectionBytes {
            base: u64::MAX,
            bytes: Arc::new(vec![0; 8]),
            precomputed: Some(Arc::new(vec![
                insn(0x1008, Some(0x3000), None),
                insn(0x1000, Some(0x3000), None),
                insn(0x1000, Some(0x3000), None),
            ])),
            arch: Architecture::Arm,
        },
    );
    let data: Table<SectionKey, DataSectionBytes> = Table::new();
    let xrefs = build_native_xrefs(&text, &data, &Table::new(), &mut progress());
    assert_eq!(xrefs.get(&aid).expect("entry").get(&0x3000), Some(&vec![0x1000, 0x1008]));
}

#[test]
fn thumb_branch_targets_lose_their_mode_bit() {
    let aid = ArtifactId::from_raw([0u8; 32]);
    let mut text: Table<SectionKey, TextSectionBytes> = Table::new();
    let insns = vec![
        insn(0x1000, Some(0x1009), None),
        insn(0x1004, Some(0x1010), None),
        insn(0x1008, Some(0x1009), None),
    ];
    text.insert(
        (aid, ".text".to_string()),
        TextSectionBytes {
            base: 0x1000,
            bytes: Arc::new(vec![0; 12]),
            precomputed: Some(Arc::new(insns)),
            arch: Architecture::Arm,
        },
    );
    let data: Table<SectionKey, DataSectionBytes> = Table::new();
    let words = Table::new();
    let mut p = progress();
    let xrefs = build_native_xrefs(&text, &data, &words, &mut p);
    let map = xrefs.get(&aid).expect("artifact entry");
    assert!(!map.is_empty());
    assert_eq!(map.get(&0x1008), Some(&vec![0x1000, 0x1008]));
    assert_eq!(map.get(&0x1010), Some(&vec![0x1004]));
    assert!(map.get(&0x1009).is_none());
    for sites in map.values() {
        for s in sites {
            assert!(*s >= 0x1000 && *s < 0x100c);
        }
    }
}

#[test]
fn fixed_width_words_and_pools_are_indexed() {
    let a = ArtifactId::from_raw([1u8; 32]);
    let mut text: Table<SectionKey, TextSectionBytes> = Table::new();
    text.insert(
        (a, ".text".to_string()),
        TextSectionBytes {
            base: 0x1000,
            bytes: Arc::new(vec![0; 8]),
            precomputed: None,
            arch: Architecture::Aarch64,
        },
    );
    let data: Table<SectionKey, DataSectionBytes> = Table::new();
    let mut words = Table::new();
    let word = |to: Option<u64>| WordInsn {
        terminator: false,
        adrp: false,
        unconditional_branch: false,
        conditional_branch: false,
        operands: match to {
            Some(t) => vec![WordOperand::BranchTarget(t)],
            None => Vec::new(),
        },
        address_operand: to,
        fused_target: None,
    };
    words.insert(
        (a, ".text".to_string()),
        Arc::new(vec![Some(word(Some(0x3000))), Some(word(None))]),
    );
    let mut p = progress();
    let xrefs = build_native_xrefs(&text, &data, &words, &mut p);
    assert_eq!(xrefs.get(&a).expect("entry").get(&0x3000), Some(&vec![0x1000]));
}

#[test]
fn data_words_are_peeked_in_order() {
    let peek = DataPeek {
        sections: vec![(0x2000, Arc::new(vec![0x78, 0x56, 0x34, 0x12, 0xff]))],
        code_sections: vec![(0x1000, Arc::new(vec![0; 8]))],
    };
    assert_eq!(peek.peek_u32_le(0x2000), Some(0x12345678));
    assert_eq!(peek.peek_u32_le(0x2002), None);
    assert!(peek.holds(0x2004));
    assert!(!peek.holds(0x2005));
}

fn classes() -> (Vec<LeafKind>, Vec<String>) {
    let kinds = vec![
        LeafKind::SmaliClass { class_jni: "La;".to_string() },
        LeafKind::SectionMap { artifact: ArtifactId::from_raw([0; 32]) },
        LeafKind::SmaliClass { class_jni: "Lb;".to_string() },
    ];
    let bodies = vec![
        ".method public one()V\n    invoke-static {}, Lb;->two()V\n    invoke-static {}, Lb;->two()V\n    sget v0, La;->f:I\n.end method\ninvoke-static {}, Lb;->outside()V\n"
            .to_string(),
        String::new(),
        ".method two()V\n    invoke-virtual {v0}, La;->one()V\n    iput v0, p0, La;->f:I\n.end method\n"
            .to_string(),
    ];
    (kinds, bodies)
}

#[test]
fn callers_are_indexed_with_their_lines() {
    let (kinds, bodies) = classes();
    let mut p = progress();
    let callers = build_dex_callers(&bodies, &kinds, &mut p);
    let two = callers.get(&"Lb;->two()V".to_string()).expect("called");
    assert_eq!(
        *two,
        vec![("La;->one()V".to_string(), 1), ("La;->one()V".to_string(), 2)]
    );
    assert!(callers.get(&"Lb;->outside()V".to_string()).is_none());
    assert_eq!(p.current, 2);
}

#[test]
fn field_touches_are_indexed() {
    let (kinds, bodies) = classes();
    let mut p = progress();
    let refs = build_dex_field_refs(&bodies, &kinds, &mut p);
    let f = refs.get(&"La;->f:I".to_string()).expect("touched");
    assert_eq!(*f, vec![("La;->one()V".to_string(), 3), ("Lb;->two()V".to_string(), 2)]);
}

#[test]
fn calls_are_listed_once_and_methods_found_by_line() {
    let (kinds, bodies) = classes();
    let calls = build_method_call_index(&kinds, &bodies);
    assert_eq!(
        *calls.get(&"La;->one()V".to_string()).expect("calls"),
        vec!["Lb;->two()V".to_string()]
    );
    let lines = build_method_line_index(&kinds, &bodies);
    assert_eq!(*lines.get(&"Lb;->two()V".to_string()).expect("declared"), (LeafId(2), 0));
}

#[test]
fn class_names_split_at_slashes() {
    assert_eq!(split_jni_class_name("Lcom/example/Foo$Bar;"), vec!["com", "example", "Foo$Bar"]);
    assert_eq!(split_jni_class_name("Top"), vec!["Top"]);
    assert_eq!(split_jni_class_name(""), vec![""]);
}

#[test]
fn single_child_packages_collapse() {
    let mut b = PkgBuilder::new();
    b.insert(&split_jni_class_name("La/b/C;"), LeafId(0));
    b.insert(&split_jni_class_name("La/b/d/E;"), LeafId(1));
    b.insert(&split_jni_class_name("LZ;"), LeafId(2));
    let nodes = b.finish();
    assert_eq!(nodes.len(), 2);
    match &nodes[0] {
        Node::Group { label, children } => {
            assert_eq!(label, "a.b");
            assert_eq!(children.len(), 2);
        }
        other => panic!("{:?}", other),
    }
    assert!(matches!(&nodes[1], Node::Leaf { label, leaf_id: LeafId(2) } if label == "Z"));
}

/// The leaves below some nodes, each with the labels above it joined by dots.
fn places(nodes: &[Node], above: Option<&str>, out: &mut Vec<(Option<String>, String, LeafId)>) {
    for n in nodes {
        match n {
            Node::Leaf { label, leaf_id } => {
                out.push((above.map(str::to_string), label.clone(), *leaf_id));
            }
            Node::Group { label, children } => {
                assert!(!children.is_empty());
                assert!(!matches!(children.as_slice(), [Node::Group { .. }]));
                let package = match above {
                    Some(a) => format!("{}.{}", a, label),
                    None => label.clone(),
                };
                places(children, Some(&package), out);
            }
        }
    }
}

#[test]
fn classes_stand_in_their_packages() {
    let names = [
        "Lcom/example/app/ui/Main;",
        "Lcom/example/app/ui/Main;",
        "Lcom/example/app/Data;",
        "Lorg/deep/er/est/Only;",
        "LTop;",
        "La//b/Odd;",
    ];
    let mut b = PkgBuilder::new();
    for (i, name) in names.iter().enumerate() {
        b.insert(&split_jni_class_name(name), LeafId(i));
    }
    b.insert(&Vec::new(), LeafId(99));
    let mut found = Vec::new();
    places(&b.finish(), None, &mut found);
    let mut expected: Vec<(Option<String>, String, LeafId)> = vec![
        (Some("com.example.app.ui".to_string()), "Main".to_string(), LeafId(0)),
        (Some("com.example.app.ui".to_string()), "Main".to_string(), LeafId(1)),
        (Some("com.example.app".to_string()), "Data".to_string(), LeafId(2)),
        (Some("org.deep.er.est".to_string()), "Only".to_string(), LeafId(3)),
        (None, "Top".to_string(), LeafId(4)),
        (Some("a..b".to_string()), "Odd".to_string(), LeafId(5)),
    ];
    found.sort_by_key(|p| p.2 .0);
    expected.sort_by_key(|p| p.2 .0);
    assert_eq!(found, expected);
}

#[test]
fn strings_order_as_std_orders_them() {
    let words = ["", "a", "aa", "b", "é", "z", "\u{10000}", "\u{ffff}"];
    for x in words {
        for y in words {
            assert_eq!(str_before(x, y), x < y, "{:?} {:?}", x, y);
        }
    }
}

#[test]
fn sorting_is_stable_and_dedup_drops_repeats() {
    let keys: Vec<u64> = vec![3, 1, 3, 2, 1];
    assert_eq!(sorted_order(&keys), vec![1, 4, 3, 0, 2]);
    assert_eq!(sort_dedup(&keys), vec![1, 2, 3]);
}

#[test]
fn tables_keep_the_last_value_of_a_key() {
    let mut t: Table<String, u32> = Table::new();
    t.insert("b".to_string(), 1);
    t.insert("a".to_string(), 2);
    t.insert("b".to_string(), 3);
    assert_eq!(t.len(), 2);
    assert_eq!(t.entry(0).0, "a");
    assert_eq!(t.get(&"b".to_string()), Some(&3));
    assert!(!t.contains(&"c".to_string()));
}

#[test]
fn data_sections_split_into_rows() {
    let d = DataSectionBytes {
        base: 0x100,
        bytes: Arc::new((0u8..20).collect()),
        kind: NativeSectionKind::Data,
    };
    assert_eq!(d.row_count(), 2);
    assert_eq!(d.row_addr(1), 0x110);
    assert_eq!(d.row_of(0x112), 1);
    assert_eq!(d.row_of(0), 0);
    assert_eq!(d.row_of(0x9999), 1);
    assert_eq!(d.row_bytes(1), vec![16u8, 17, 18, 19]);
}

#[test]
fn code_sections_index_their_instructions() {
    let t = TextSectionBytes {
        base: 0x1000,
        bytes: Arc::new(vec![1, 2, 3, 4, 5, 6, 7, 8, 9]),
        precomputed: None,
        arch: Architecture::Aarch64,
    };
    assert_eq!(t.instruction_count(), 2);
    assert_eq!(t.addr_of(1), 0x1004);
    assert_eq!(t.index_of(0x1004), 1);
    assert_eq!(t.word_at(1), Some((0x1004, [5, 6, 7, 8], 0x08070605)));
    assert_eq!(t.word_at(2), None);
    assert!(t.precomputed_at(0).is_none());
}

#[test]
fn the_last_word_of_the_address_space_is_read() {
    let t = TextSectionBytes {
        base: u64::MAX - 7,
        bytes: Arc::new(vec![1, 2, 3, 4, 5, 6, 7, 8]),
        precomputed: None,
        arch: Architecture::Aarch64,
    };
    assert_eq!(t.word_at(1), Some((u64::MAX - 3, [5, 6, 7, 8], 0x08070605)));
    assert_eq!(t.word_at(2), None);
    let aid = ArtifactId::from_raw([4u8; 32]);
    let mut text: Table<SectionKey, TextSectionBytes> = Table::new();
    text.insert((aid, ".text".to_string()), t);
    let mut p = progress();
    let xrefs = build_native_xrefs(&text, &Table::new(), &Table::new(), &mut p);
    assert!(xrefs.get(&aid).expect("entry").is_empty());
    assert_eq!(p.current, 2);
}

#[test]
fn native_scans_report_as_they_go() {
    let mut text: Table<SectionKey, TextSectionBytes> = Table::new();
    let (a, b) = (ArtifactId::from_raw([1u8; 32]), ArtifactId::from_raw([2u8; 32]));
    for (aid, name, count) in [(b, ".text", 2500u64), (a, ".plt", 1024), (a, ".text", 3)] {
        let list = (0..count).map(|i| insn(4 * i, Some(0x9000 + count), None)).collect();
        text.insert(
            (aid, name.to_string()),
            TextSectionBytes {
                base: 0,
                bytes: Arc::new(Vec::new()),
                precomputed: Some(Arc::new(list)),
                arch: Architecture::Arm,
            },
        );
    }
    let data: Table<SectionKey, DataSectionBytes> = Table::new();
    let words = Table::new();
    let mut p = progress();
    let mut scan = NativeScan::start(&text, &data, &words);
    let mut seen = Vec::new();
    while !scan.is_done() {
        scan.step(&mut p);
        seen.push(p.current);
    }
    assert_eq!(seen, vec![1024, 1027, 2051, 3075, 3527]);
    let xrefs = scan.finish();
    assert_eq!(xrefs.get(&a).expect("first").len(), 2);
    assert_eq!(xrefs.get(&a).expect("first").get(&0x9002), Some(&vec![0, 4, 8]));
    assert_eq!(xrefs.get(&b).expect("second").get(&(0x9000 + 2500 & !1)).map(|v| v.len()), Some(2500));

    // Without a section there is nothing to report.
    let mut p = XrefProgress { label: "x".to_string(), current: 7, total: 9 };
    build_native_xrefs(&Table::new(), &data, &words, &mut p);
    assert_eq!((p.current, p.total), (7, 9));
}

#[test]
fn smali_scans_report_as_they_go() {
    let mut kinds = vec![LeafKind::SectionMap { artifact: ArtifactId::from_raw([0; 32]) }];
    let mut bodies = vec![String::new()];
    for i in 0..150 {
        kinds.push(LeafKind::SmaliClass { class_jni: format!("LC{};", i) });
        bodies.push(".method m()V
invoke-static {}, LX;->f()V
.end method
".to_string());
    }
    let run = |bodies: &Vec<String>| {
        let mut p = progress();
        let mut scan = RefScan::start(RefKind::Invoke, &kinds, bodies);
        let mut seen = Vec::new();
        while !scan.is_done() {
            scan.step(&mut p);
            seen.push(p.current);
        }
        (seen, scan.finish())
    };
    let (seen, index) = run(&bodies);
    assert_eq!(seen, vec![64, 128, 150]);
    assert_eq!(index.get(&"LX;->f()V".to_string()).expect("called").len(), 150);
    // A class without a body counts, but is not reported on.
    bodies.truncate(100);
    let (seen, index) = run(&bodies);
    assert_eq!(seen, vec![64, 150]);
    assert_eq!(index.get(&"LX;->f()V".to_string()).expect("called").len(), 99);
}

#[test]
fn disassembly_begins_at_the_symbols_of_a_section() {
    let at = |address: u64| Symbol {
        address,
        size: 2,
        kind: SymbolKind::Function,
        display_name: String::new(),
        name: String::new(),
    };
    let symbols = SymbolMap::from_symbols(vec![at(0x1011), at(0xfff), at(0x1000), at(0x1020)]);
    let section = Section {
        name: ".text".to_string(),
        address: 0x1000,
        size: 0x20,
        kind: SectionKind::Text,
        bytes: Arc::new(Vec::new()),
        entropy: 0,
        insns: None,
    };
    assert_eq!(section_entry_points(&symbols, &section), vec![0x1000, 0x1011]);
}

#[test]
fn indices_start_pending() {
    let store = XrefStore::new();
    assert!(!store.native.is_ready());
    let fresh: XrefIndexState<u32> = XrefIndexState::default();
    assert!(matches!(fresh, XrefIndexState::Pending));
    assert!(XrefIndexState::Ready(Arc::new(1u32)).is_ready());
}

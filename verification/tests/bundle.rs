use glass_ui::bundle::{LoadedBundle, ManifestRow};
use glass_ui::container::{Container, MetaItem, NativeBinary, Section};
use glass_ui::edits::{SmaliEdit, StagedEdit};
use glass_ui::ids::{ArtifactId, BundleId};
use glass_ui::leaf::{LeafId, LeafKind, TabKind, TabState};
use glass_ui::loader::{
    bundle_label, choose_loader, format_arm64, snapshot_apk_with_progress, snapshot_arm64,
    snapshot_ipa_with_progress, ApkInput, ApkLoad, BinaryInput, DexClass, DexFile, DisasmRow,
    Framework, IpaInput, IpaLoad, Loader, NativeLib, Progress,
};
use glass_ui::section_map::render_section_map;
use glass_ui::sections::{Architecture, DecodedInsn, NativeSectionKind, SectionKind};
use glass_ui::shell::{annotations_chip, AnnotationsChip, PaneToggle, ShellState};
use glass_ui::symbols::{Symbol, SymbolKind};
use glass_ui::tree::{flatten, Expanded, Node, RowKind};
use glass_ui::two_pane::{
    encryption_warning, encryption_warning_banner, render_two_pane, BodyView, PaneFlags, RowAction,
    TwoPaneView,
};
use std::sync::Arc;

fn sect(name: &str, address: u64, kind: SectionKind, bytes: Vec<u8>) -> Section {
    Section {
        name: name.to_string(),
        address,
        size: bytes.len() as u64,
        kind,
        bytes: Arc::new(bytes),
        entropy: 1.0f32.to_bits(),
        insns: None,
    }
}

fn container(arch: Architecture, sections: Vec<Section>) -> Container {
    Container {
        architecture: arch,
        sections,
        objc_classes: Vec::new(),
        objc_categories: Vec::new(),
        swift_types: Vec::new(),
    }
}

fn sym(address: u64, name: &str) -> Symbol {
    Symbol {
        address,
        size: 4,
        kind: SymbolKind::Function,
        display_name: name.to_string(),
        name: name.to_string(),
    }
}

fn arm64_binary(bytes: &[u8]) -> NativeBinary {
    NativeBinary {
        bytes: bytes.to_vec(),
        container: container(
            Architecture::Aarch64,
            vec![
                sect(".text", 0x1000, SectionKind::Text, vec![1, 2, 3, 4, 5, 6, 7, 8]),
                sect(".rodata", 0x2000, SectionKind::Rodata, vec![9, 10, 11]),
            ],
        ),
        symbols: vec![sym(0x1004, "b"), sym(0x1000, "a")],
    }
}

fn icon(kind: &LeafKind, source: Option<&str>) -> &'static str {
    match (kind, source) {
        (LeafKind::SmaliClass { .. }, Some(f)) if f.ends_with(".kt") => "icons/kotlin.svg",
        (LeafKind::SmaliClass { .. }, Some(_)) => "icons/java.svg",
        (LeafKind::SmaliClass { .. }, None) => "icons/class.svg",
        (LeafKind::SectionMap { .. }, None) => "icons/section-map.svg",
        (LeafKind::Listing { .. }, None) => "icons/listing.svg",
        (_, None) => "icons/file.svg",
        (_, Some(_)) => "icons/unexpected.svg",
    }
}

fn standalone() -> LoadedBundle {
    let input = BinaryInput {
        path: "/tmp/libx.so".to_string(),
        file_name: Some("libx.so".to_string()),
        binary: arm64_binary(b"file"),
    };
    snapshot_arm64(&input, &icon)
}

fn labels(nodes: &Vec<Node>) -> Vec<String> {
    nodes
        .iter()
        .map(|n| match n {
            Node::Group { label, .. } => format!("[{}]", label),
            Node::Leaf { label, leaf_id } => format!("{}#{}", label, leaf_id.0),
        })
        .collect()
}

#[test]
fn loaders_are_chosen_by_extension() {
    assert_eq!(choose_loader(Some("apk")), Loader::Apk);
    assert_eq!(choose_loader(Some("aab")), Loader::Apk);
    assert_eq!(choose_loader(Some("ipa")), Loader::Ipa);
    assert_eq!(choose_loader(Some("so")), Loader::Binary);
    assert_eq!(choose_loader(None), Loader::Binary);
    assert_eq!(bundle_label(None), "bundle");
    assert_eq!(bundle_label(Some("a.apk")), "a.apk");
}

#[test]
fn progress_runs_from_start_to_finish() {
    let mut p = Progress::starting(None);
    assert_eq!(p.label, "(bundle)");
    assert_eq!(p.phase, "Opening…");
    p.reading();
    assert_eq!(p.phase, "Reading archive…");
    assert!(!p.done);
    p.finish();
    assert!(p.done);
}

#[test]
fn standalone_binary_snapshot() {
    let b = standalone();
    let aid = ArtifactId::from_bytes(b"file");
    assert_eq!(b.title, "Glass — /tmp/libx.so");
    assert_eq!(b.display_label, "libx.so");
    assert!(b.bundle_id.is_none());
    assert_eq!(labels(&b.tree.roots), vec!["Overview#0", ".text#1"]);
    assert_eq!(b.labels[0], "libx.so (overview)");
    assert!(matches!(&b.kinds[0], LeafKind::SectionMap { artifact } if artifact.same(&aid)));
    assert!(matches!(&b.kinds[1], LeafKind::Listing { section, .. } if section == ".text"));
    let map = b.symbol_maps.get(&aid).expect("symbols");
    assert_eq!(map.get(0).name, "a");
    assert_eq!(map.get(1).name, "b");
    assert!(b.text_sections.contains(&(aid, ".text".to_string())));
    assert!(b.data_sections.contains(&(aid, ".rodata".to_string())));
}

#[test]
fn bundle_answers_where_addresses_lie() {
    let mut b = standalone();
    let aid = ArtifactId::from_bytes(b"file");
    assert_eq!(b.text_section_for_addr(&aid, 0x1004).map(|s| s.as_str()), Some(".text"));
    assert!(b.text_section_for_addr(&aid, 0x1008).is_none());
    assert_eq!(b.data_section_for_addr(&aid, 0x2002).map(|s| s.as_str()), Some(".rodata"));
    assert_eq!(b.bytes_at(&aid, 0x1004), Some([5, 6, 7, 8]));
    assert_eq!(b.bytes_at(&aid, 0x1005), None);
    assert_eq!(b.data_byte_at(&aid, 0x2001), Some(10));
    assert_eq!(b.data_byte_at(&aid, 0x2003), None);
    b.edits.stage(StagedEdit {
        artifact: aid,
        vaddr: 0x1004,
        original_bytes: vec![5, 6, 7, 8],
        new_bytes: vec![0xaa, 0xbb],
        absorbed_following: 0,
    });
    b.edits.stage(StagedEdit {
        artifact: aid,
        vaddr: 0x2000,
        original_bytes: vec![9, 10],
        new_bytes: vec![1, 2],
        absorbed_following: 4,
    });
    assert_eq!(b.bytes_at(&aid, 0x1004), Some([0xaa, 0xbb, 0, 0]));
    assert_eq!(b.data_byte_at(&aid, 0x2001), Some(2));
    assert!(b.is_absorbed_row(&aid, 0x2002));
    assert!(b.is_absorbed_row(&aid, 0x2005));
    assert!(!b.is_absorbed_row(&aid, 0x2006));
    assert!(!b.is_absorbed_row(&aid, 0x2001));
    let hex = b.hex_view_section(&aid, ".text").expect("code as bytes");
    assert_eq!(hex.kind, NativeSectionKind::Text);
    assert_eq!(hex.base, 0x1000);
    assert!(b.hex_view_section(&aid, ".none").is_none());
}

#[test]
fn edits_show_only_in_their_kind_of_section() {
    let mut b = standalone();
    let aid = ArtifactId::from_bytes(b"file");
    let edit = |vaddr: u64| StagedEdit {
        artifact: aid,
        vaddr,
        original_bytes: Vec::new(),
        new_bytes: vec![1, 2, 3, 4],
        absorbed_following: 0,
    };
    // A data byte that was edited is no code.
    b.edits.stage(edit(0x2000));
    assert_eq!(b.bytes_at(&aid, 0x2000), None);
    assert_eq!(b.data_byte_at(&aid, 0x2001), Some(2));
    // Neither is what an edit holds past the end of the section.
    assert_eq!(b.data_byte_at(&aid, 0x2003), None);
    // A code byte that was edited is no data.
    b.edits.stage(edit(0x1000));
    assert_eq!(b.data_byte_at(&aid, 0x1000), None);
    assert_eq!(b.bytes_at(&aid, 0x1000), Some([1, 2, 3, 4]));
    // An edit outside every section, and one too close to the end.
    b.edits.stage(edit(0x5000));
    b.edits.stage(edit(0x1006));
    assert_eq!(b.bytes_at(&aid, 0x5000), None);
    assert_eq!(b.data_byte_at(&aid, 0x5000), None);
    assert_eq!(b.bytes_at(&aid, 0x1006), None);
}

#[test]
fn persisted_tabs_resolve_to_their_leaves() {
    let b = standalone();
    let aid = ArtifactId::from_bytes(b"file");
    let tab = TabKind::from_kind(&b.kinds[1]).expect("a listing opens a tab");
    let state = tab.to_state().expect("listings persist");
    assert_eq!(b.resolve(&state), Some(LeafId(1)));
    assert_eq!(b.resolve(&TabState::SectionMap { artifact: aid }), Some(LeafId(0)));
    let gone = TabState::SectionMap { artifact: ArtifactId::from_raw([1; 32]) };
    assert_eq!(b.resolve(&gone), None);
}

fn precomputed_bundle(arch: Architecture) -> (LoadedBundle, ArtifactId) {
    let insn = |address: u64, size: u32| DecodedInsn {
        address,
        size,
        terminator: false,
        branch_target: None,
        pcrel_target: None,
        fused_target: None,
    };
    let mut text = sect(".text", 0x1000, SectionKind::Text, vec![0; 8]);
    text.insns = Some(Arc::new(vec![insn(0x1000, 2), insn(0x1002, 4)]));
    let input = BinaryInput {
        path: "x".to_string(),
        file_name: None,
        binary: NativeBinary {
            bytes: b"thumb".to_vec(),
            container: container(arch, vec![text]),
            symbols: Vec::new(),
        },
    };
    let b = snapshot_arm64(&input, &icon);
    (b, ArtifactId::from_bytes(b"thumb"))
}

#[test]
fn precomputed_instructions_are_found_by_exact_address() {
    let (b, aid) = precomputed_bundle(Architecture::Arm);
    assert_eq!(b.display_label, "binary");
    assert_eq!(b.precomputed_insn_at(&aid, 0x1002).map(|d| d.size), Some(4));
    assert!(b.precomputed_insn_at(&aid, 0x1004).is_none());
    assert!(b.is_armv7_text(&aid, 0x1002));
    assert!(!b.is_armv7_text(&aid, 0x9000));
    let (x86, other) = precomputed_bundle(Architecture::X86_64);
    assert!(!x86.is_armv7_text(&other, 0x1002));
}

fn dex(name: &str, bytes: &[u8], classes: Vec<(&str, &str)>) -> DexFile {
    DexFile {
        name: name.to_string(),
        bytes: bytes.to_vec(),
        classes: classes
            .into_iter()
            .map(|(jni, smali)| DexClass {
                jni: jni.to_string(),
                smali: smali.to_string(),
                source: None,
            })
            .collect(),
    }
}

fn apk() -> (LoadedBundle, Progress) {
    let mut progress = Progress::starting(Some("app.apk"));
    let input = ApkInput {
        path: "/tmp/app.apk".to_string(),
        dex_files: vec![
            dex(
                "classes.dex",
                b"dex1",
                vec![
                    (
                        "Lcom/example/Foo;",
                        ".class Lcom/example/Foo;\n.method public run()V\n    invoke-virtual {p0}, Lcom/example/Bar;->go()V\n.end method\n",
                    ),
                    (
                        "Lcom/example/Bar;",
                        ".class Lcom/example/Bar;\n.method go()V\n    iget-object v0, p0, Lcom/example/Bar;->name:Ljava/lang/String;\n.end method\n",
                    ),
                ],
            ),
            dex("classes2.dex", b"dex2", vec![("Lorg/Top;", "")]),
        ],
        native_libs: vec![
            NativeLib {
                abi: "x86_64".to_string(),
                name: "libz.so".to_string(),
                binary: NativeBinary {
                    bytes: b"lib1".to_vec(),
                    container: container(
                        Architecture::X86_64,
                        vec![sect(".text", 0x1000, SectionKind::Text, vec![0xc3])],
                    ),
                    symbols: Vec::new(),
                },
            },
            NativeLib {
                abi: "arm64-v8a".to_string(),
                name: "liba.so".to_string(),
                binary: arm64_binary(b"lib2"),
            },
        ],
        manifest: Some(vec![ManifestRow { depth: 0, text: "<manifest>".to_string() }]),
        manifest_bytes: Some(b"xml".to_vec()),
        manifest_archive_path: "AndroidManifest.xml".to_string(),
    };
    let b = snapshot_apk_with_progress(input, &mut progress, "app.apk".to_string(), &icon);
    (b, progress)
}

#[test]
fn android_archive_snapshot() {
    let (b, progress) = apk();
    assert_eq!(labels(&b.tree.roots), vec!["AndroidManifest.xml#0", "[Classes]", "[lib]"]);
    match &b.tree.roots[1] {
        Node::Group { children, .. } => {
            assert_eq!(labels(children), vec!["[com.example]", "[org]"]);
            match &children[0] {
                Node::Group { children, .. } => assert_eq!(labels(children), vec!["Foo#1", "Bar#2"]),
                other => panic!("{:?}", other),
            }
        }
        other => panic!("{:?}", other),
    }
    match &b.tree.roots[2] {
        Node::Group { children, .. } => {
            assert_eq!(labels(children), vec!["[arm64-v8a]", "[x86_64]"]);
        }
        other => panic!("{:?}", other),
    }
    assert_eq!(b.artifact_ids.len(), 4);
    let ids: Vec<ArtifactId> = [&b"dex1"[..], b"dex2", b"lib1", b"lib2"]
        .iter()
        .map(|c| ArtifactId::from_bytes(c))
        .collect();
    let want = BundleId::of_artifacts(&ids);
    assert_eq!(b.bundle_id.as_ref().expect("id").as_bytes(), want.as_bytes());
    assert_eq!(b.origins[1], "classes.dex");
    assert_eq!(b.origins[3], "classes2.dex");
    assert_eq!(progress.phase, "Disassembling native…");
    assert_eq!((progress.current, progress.total), (2, 2));
    assert_eq!(b.manifest_rows.len(), 1);
    assert_eq!(
        b.native_artifact_labels.get(&ids[2]).map(|s| s.as_str()),
        Some("lib/x86_64/libz.so")
    );
}

#[test]
fn every_leaf_of_an_archive_stands_in_its_tree_once() {
    fn count(nodes: &Vec<Node>, seen: &mut Vec<usize>) {
        for n in nodes {
            match n {
                Node::Group { children, .. } => count(children, seen),
                Node::Leaf { leaf_id, .. } => seen.push(leaf_id.0),
            }
        }
    }
    let (b, _) = apk();
    let mut seen = Vec::new();
    count(&b.tree.roots, &mut seen);
    seen.sort();
    assert_eq!(seen, (0..b.kinds.len()).collect::<Vec<usize>>());
}

#[test]
fn method_lines_follow_staged_classes() {
    let (mut b, _) = apk();
    let key = "Lcom/example/Foo;->run()V";
    assert_eq!(b.resolve_method_line(key), Some((LeafId(1), 1)));
    assert_eq!(b.resolve_method_line("Lcom/example/Foo;->gone()V"), None);
    assert_eq!(b.resolve_method_line("no arrow"), None);
    assert!(b.method_calls.get(&key.to_string()).expect("calls").len() == 1);
    b.smali_edits.stage(SmaliEdit {
        artifact: ArtifactId::from_bytes(b"dex1"),
        class_jni: "Lcom/example/Foo;".to_string(),
        modified: "# one\n# two\n.method public run()V\n.end method\n".to_string(),
    });
    assert_eq!(b.resolve_method_line(key), Some((LeafId(1), 2)));
    let dex1 = ArtifactId::from_bytes(b"dex1");
    assert!(b.smali_class_for(&dex1, "Lcom/example/Bar;").is_some());
    assert!(b.smali_class_for(&dex1, "Lorg/Top;").is_none());
}

#[test]
fn ios_archive_snapshot() {
    let mut progress = Progress::starting(Some("app.ipa"));
    let mut main = arm64_binary(b"main");
    main.container.swift_types = vec![MetaItem {
        name: "4main3FooC".to_string(),
        pretty: "main.Foo".to_string(),
        rows: Arc::new(vec!["class Foo".to_string()]),
    }];
    let input = IpaInput {
        path: "/tmp/app.ipa".to_string(),
        info_rows: vec![ManifestRow { depth: 0, text: "dict".to_string() }],
        info_bytes: b"plist".to_vec(),
        info_archive_path: "Payload/App.app/Info.plist".to_string(),
        executable: Some("App".to_string()),
        main_executable: Some(main),
        frameworks: vec![
            Framework { name: "Broken".to_string(), binary: None },
            Framework { name: "Kit".to_string(), binary: Some(arm64_binary(b"kit")) },
        ],
    };
    let mut load = IpaLoad::start(input, &mut progress);
    let mut seen = vec![(progress.phase.clone(), progress.current, progress.total)];
    while !load.is_done() {
        load.step(&mut progress);
        seen.push((progress.phase.clone(), progress.current, progress.total));
    }
    let native = |n: usize| ("Disassembling native…".to_string(), n, 3);
    assert_eq!(seen, vec![native(0), native(1), native(2), native(3)]);
    let b = load.finish("app.ipa".to_string(), &icon);
    assert_eq!(labels(&b.tree.roots), vec!["Info.plist#0", "[App]", "[Frameworks]"]);
    match &b.tree.roots[1] {
        Node::Group { children, .. } => {
            assert_eq!(labels(children), vec!["Overview#1", ".text#2", "[Swift]"]);
        }
        other => panic!("{:?}", other),
    }
    assert_eq!(b.kinds.len(), 6);
    assert_eq!(b.labels[3], "main.Foo");
    let aid = ArtifactId::from_bytes(b"main");
    assert!(b.swift_types.contains(&(aid, "4main3FooC".to_string())));
}

#[test]
fn ios_archive_without_parts() {
    let mut progress = Progress::starting(None);
    let input = IpaInput {
        path: "x.ipa".to_string(),
        info_rows: Vec::new(),
        info_bytes: b"plist".to_vec(),
        info_archive_path: "Info.plist".to_string(),
        executable: None,
        main_executable: None,
        frameworks: Vec::new(),
    };
    let b = snapshot_ipa_with_progress(input, &mut progress, "x.ipa".to_string(), &icon);
    assert_eq!(labels(&b.tree.roots), vec!["Info.plist#0"]);
    assert_eq!(b.leaf_icons, vec!["icons/file.svg"]);
    assert_eq!((progress.current, progress.total), (1, 1));
}

fn many_classes(count: usize, libs: Vec<NativeLib>) -> ApkInput {
    let names: Vec<String> = (0..count).map(|i| format!("La/C{};", i)).collect();
    let (one, two) = names.split_at(count / 3);
    let file = |name: &str, names: &[String]| {
        dex(name, name.as_bytes(), names.iter().map(|n| (n.as_str(), "")).collect())
    };
    ApkInput {
        path: "many.apk".to_string(),
        dex_files: vec![file("a.dex", one), file("b.dex", &[]), file("c.dex", two)],
        native_libs: libs,
        manifest: None,
        manifest_bytes: None,
        manifest_archive_path: String::new(),
    }
}

fn states(input: ApkInput) -> (Vec<(String, usize, usize)>, LoadedBundle) {
    let mut p = Progress::starting(None);
    let mut load = ApkLoad::start(input, &mut p);
    let mut seen = vec![(p.phase.clone(), p.current, p.total)];
    while !load.is_done() {
        load.step(&mut p);
        seen.push((p.phase.clone(), p.current, p.total));
    }
    (seen, load.finish("many.apk".to_string(), &icon))
}

#[test]
fn loading_reports_as_it_goes() {
    let lib = |bytes: &[u8]| NativeLib {
        abi: "arm64-v8a".to_string(),
        name: "l.so".to_string(),
        binary: arm64_binary(bytes),
    };
    let lift = |n: usize, of: usize| ("Lifting smali…".to_string(), n, of);
    let show = |n: usize| ("Disassembling native…".to_string(), n, 2);
    let (seen, b) = states(many_classes(150, vec![lib(b"one"), lib(b"two")]));
    assert_eq!(
        seen,
        vec![
            lift(0, 150),
            lift(64, 150),
            lift(128, 150),
            lift(150, 150),
            show(0),
            show(1),
            show(2),
        ]
    );
    assert_eq!(b.kinds.len(), 150 + 4);
    assert_eq!(b.origins[49], "a.dex");
    assert_eq!(b.origins[50], "c.dex");
    assert_eq!(b.labels[149], "C149");
    assert_eq!(states(many_classes(128, Vec::new())).0, vec![
        lift(0, 128),
        lift(64, 128),
        lift(128, 128),
    ]);
    let (seen, b) = states(many_classes(0, Vec::new()));
    assert_eq!(seen, vec![lift(0, 0)]);
    assert_eq!(labels(&b.tree.roots), vec!["[Classes]"]);
}

#[test]
fn leaves_have_icons() {
    let class = |jni: &str, source: Option<&str>| DexClass {
        jni: jni.to_string(),
        smali: String::new(),
        source: source.map(|f| f.to_string()),
    };
    let mut input = many_classes(0, vec![NativeLib {
        abi: "arm64-v8a".to_string(),
        name: "l.so".to_string(),
        binary: arm64_binary(b"l"),
    }]);
    input.dex_files[0].classes = vec![class("LA;", Some("A.java")), class("LB;", Some("B.kt"))];
    input.dex_files[2].classes = vec![class("LC;", None)];
    let mut progress = Progress::starting(None);
    let mut b = snapshot_apk_with_progress(input, &mut progress, "x".to_string(), &icon);
    assert_eq!(
        b.leaf_icons,
        vec![
            "icons/java.svg",
            "icons/kotlin.svg",
            "icons/class.svg",
            "icons/section-map.svg",
            "icons/listing.svg",
        ]
    );
    let mut open = Expanded::new();
    open.toggle(&vec![0]);
    let flags = PaneFlags {
        listing_ready: true,
        has_editor: false,
        annotations_open: false,
        resizing: false,
    };
    let icons = |b: &LoadedBundle| -> Vec<Option<&'static str>> {
        let view = render_two_pane(b, &open, &Vec::new(), None, None, flags);
        view.rows.iter().map(|r| r.icon).collect()
    };
    assert_eq!(
        icons(&b),
        vec![
            None,
            Some("icons/java.svg"),
            Some("icons/kotlin.svg"),
            Some("icons/class.svg"),
            None,
        ]
    );
    b.leaf_icons.truncate(1);
    assert_eq!(icons(&b), vec![None, Some("icons/java.svg"), None, None, None]);
}

#[test]
fn disassembly_text_is_capped() {
    let row = |address: u64| DisasmRow { address, text: "nop".to_string() };
    assert_eq!(
        format_arm64(&Ok(vec![row(0x1000), row(0x1004)])),
        "0x0000000000001000  nop\n0x0000000000001004  nop\n"
    );
    assert_eq!(format_arm64(&Err("bad".to_string())), "(disassembly failed: bad)");
    let many: Vec<DisasmRow> = (0..5002u64).map(row).collect();
    let text = format_arm64(&Ok(many));
    assert!(text.ends_with("... (2 more rows truncated)\n"));
    assert_eq!(text.lines().count(), 5001);
}

#[test]
fn navigator_and_body_of_a_bundle() {
    let b = standalone();
    let aid = ArtifactId::from_bytes(b"file");
    let flags = PaneFlags {
        listing_ready: false,
        has_editor: false,
        annotations_open: true,
        resizing: false,
    };
    let mut ids = glass_ui::leaf::TabIds::new();
    let tabs = vec![
        glass_ui::leaf::Tab::new(&mut ids, TabKind::CoverageMap),
        glass_ui::leaf::Tab::new(
            &mut ids,
            TabKind::Listing { artifact: aid, section: ".text".to_string() },
        ),
        glass_ui::leaf::Tab::new(
            &mut ids,
            TabKind::Hex { artifact: aid, section: ".rodata".to_string() },
        ),
        glass_ui::leaf::Tab::new(&mut ids, TabKind::ScriptEditor { name: "s".to_string() }),
    ];
    let open = Expanded::new();
    let pending = render_two_pane(&b, &open, &tabs, Some(1), Some(LeafId(1)), flags);
    assert!(matches!(pending.body, BodyView::Disassembling));
    assert_eq!(pending.rows.len(), 2);
    assert!(!pending.rows[0].selected && pending.rows[1].selected);
    assert!(!pending.coverage_active && pending.annotations && !pending.dragging);
    let TwoPaneView { rows, coverage_active, body, annotations, dragging } =
        render_two_pane(&b, &open, &tabs, Some(0), Some(LeafId(1)), flags);
    assert_eq!(rows.len(), 2);
    assert!(!rows[0].selected && rows[1].selected);
    assert_eq!(rows[0].chevron, None);
    assert!(matches!(rows[1].action, RowAction::Select(LeafId(1))));
    assert!(coverage_active);
    assert!(matches!(body, BodyView::CoverageMap));
    assert!(annotations && !dragging);
    let body_of = |active: Option<usize>, flags: PaneFlags| {
        render_two_pane(&b, &open, &tabs, active, None, flags).body
    };
    assert!(matches!(body_of(Some(2), flags), BodyView::Hex { warning: None, .. }));
    assert!(matches!(body_of(Some(3), flags), BodyView::Empty));
    assert!(matches!(
        body_of(Some(3), PaneFlags { has_editor: true, ..flags }),
        BodyView::Editor
    ));
    assert!(matches!(body_of(None, flags), BodyView::Empty));
    assert!(matches!(body_of(Some(9), flags), BodyView::Empty));
    assert!(matches!(
        body_of(Some(1), PaneFlags { listing_ready: true, ..flags }),
        BodyView::Listing { .. }
    ));
}

#[test]
fn loaded_windows_show_the_annotations_chip() {
    let state = ShellState::Ready(standalone());
    assert_eq!(
        annotations_chip(&state, true),
        Some(AnnotationsChip { lit: true, click: PaneToggle::Close })
    );
    assert_eq!(
        annotations_chip(&state, false),
        Some(AnnotationsChip { lit: false, click: PaneToggle::Open })
    );
}

#[test]
fn groups_show_chevrons() {
    let (b, _) = apk();
    let mut open = Expanded::new();
    open.toggle(&vec![1]);
    let rows = flatten(&b.tree, &open);
    assert_eq!(rows.len(), 5);
    assert!(matches!(&rows[1].kind, RowKind::Group { expanded: true, .. }));
    let flags = PaneFlags {
        listing_ready: true,
        has_editor: false,
        annotations_open: false,
        resizing: true,
    };
    let TwoPaneView { rows, dragging, .. } =
        render_two_pane(&b, &open, &Vec::new(), None, None, flags);
    assert_eq!(rows[1].chevron, Some('▾'));
    assert_eq!(rows[2].chevron, Some('▸'));
    assert_eq!(rows[2].depth, 1);
    assert!(matches!(&rows[2].action, RowAction::Toggle(p) if p == &vec![1, 0]));
    assert!(dragging);
}

#[test]
fn encrypted_sections_are_warned_of() {
    let mut input = BinaryInput {
        path: "p".to_string(),
        file_name: None,
        binary: arm64_binary(b"enc"),
    };
    input.binary.container.sections[0].entropy = 7.95f32.to_bits();
    let b = snapshot_arm64(&input, &icon);
    let aid = ArtifactId::from_bytes(b"enc");
    assert_eq!(encryption_warning(&b, &aid, ".text"), Some(7.95f32.to_bits()));
    assert_eq!(encryption_warning(&b, &aid, ".rodata"), None);
    assert_eq!(encryption_warning(&b, &aid, ".none"), None);
    assert_eq!(
        encryption_warning_banner("7.95"),
        "\u{26A0} High entropy (7.95 bits/byte) \u{2014} this section is probably encrypted or packed; the decoded output below may be meaningless."
    );
}

#[test]
fn section_map_of_a_bundle() {
    let b = standalone();
    let aid = ArtifactId::from_bytes(b"file");
    let view = render_section_map(&b, &aid, Some(0), None, None);
    assert_eq!(view.cells.len(), 2);
    assert!(view.rows[0].hot && !view.rows[1].hot);
    assert_eq!(view.tooltip.expect("hovered").count, "2 symbols in section");
    let none = render_section_map(&b, &ArtifactId::from_raw([3; 32]), Some(0), None, None);
    assert!(none.cells.is_empty() && none.tooltip.is_none());
}

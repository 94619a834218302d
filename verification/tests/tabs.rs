use glass_ui::edits::{EditRegistry, SmaliEdit, SmaliEditRegistry, StagedEdit};
use glass_ui::ids::ArtifactId;
use glass_ui::leaf::{leaf_backs, Camera, LeafId, LeafKind, Tab, TabId, TabIds, TabKind, TabState};
use glass_ui::tree::{flatten, Expanded, Node, RowKind, Tree};

fn aid(n: u8) -> ArtifactId {
    ArtifactId::from_raw([n; 32])
}

#[test]
fn tab_ids_are_distinct() {
    let mut ids = TabIds::new();
    assert_eq!(ids.next(), TabId(1));
    assert_eq!(ids.next(), TabId(2));
}

#[test]
fn leaves_back_the_tabs_they_open() {
    let kinds = vec![
        LeafKind::Listing { artifact: aid(1), section: ".text".to_string() },
        LeafKind::Hex { artifact: aid(1), section: ".data".to_string() },
        LeafKind::SectionMap { artifact: aid(1) },
        LeafKind::Manifest { artifact: aid(2) },
        LeafKind::Plist { artifact: aid(2) },
        LeafKind::ObjCClass { artifact: aid(1), class_name: "Foo".to_string() },
    ];
    for k in &kinds {
        let tab = TabKind::from_kind(k).expect("opens a tab");
        let state = tab.to_state().expect("persists");
        assert!(leaf_backs(k, &state), "{:?}", k);
        let others = kinds.iter().filter(|o| leaf_backs(o, &state)).count();
        assert_eq!(others, 1);
    }
    assert!(TabKind::ScriptEditor { name: "s".to_string() }.to_state().is_none());
    assert!(leaf_backs(
        &LeafKind::SmaliClass { class_jni: "La;".to_string() },
        &TabState::SmaliClass { class_jni: "La;".to_string(), scroll_line: 7 }
    ));
}

#[test]
fn graph_tabs_carry_their_camera() {
    let mut ids = TabIds::new();
    let camera = Camera {
        pan_x: 1.5f32.to_bits(),
        pan_y: (-2.0f32).to_bits(),
        zoom: 0.5f32.to_bits(),
    };
    let tab = Tab::new_cfg_with_camera(&mut ids, aid(1), 0x1000, camera);
    assert_eq!(tab.cfg, Some(camera));
    assert!(tab.dex_callgraph.is_none());
    let fresh = Tab::new(&mut ids, TabKind::Cfg { artifact: aid(1), entry_addr: 1 });
    assert_eq!(fresh.cfg, Some(Camera { pan_x: 0, pan_y: 0, zoom: 1.0f32.to_bits() }));
    let calls = Tab::new_dex_callgraph_with_camera(
        &mut ids,
        "La;".to_string(),
        "run()V".to_string(),
        camera,
    );
    assert_eq!(calls.dex_callgraph, Some(camera));
    assert!(calls.cfg.is_none());
    let plain = Tab::new(&mut ids, TabKind::CoverageMap);
    assert!(plain.cfg.is_none() && plain.dex_callgraph.is_none());
}

#[test]
fn edits_replace_and_cover() {
    let edit = |vaddr: u64, new: Vec<u8>| StagedEdit {
        artifact: aid(1),
        vaddr,
        original_bytes: vec![0; 4],
        new_bytes: new,
        absorbed_following: 0,
    };
    let mut r = EditRegistry::new();
    r.stage(edit(0x10, vec![1, 2]));
    r.stage(edit(0x10, vec![3, 4, 5]));
    assert_eq!(r.entries().len(), 1);
    assert_eq!(r.get(&aid(1), 0x10).expect("staged").new_bytes, vec![3, 4, 5]);
    assert!(r.get(&aid(1), 0x11).is_none());
    assert!(r.get(&aid(2), 0x10).is_none());
    assert!(r.covering(&aid(1), 0x12).is_some());
    assert!(r.covering(&aid(1), 0x13).is_none());
    let mut s = SmaliEditRegistry::new();
    s.stage(SmaliEdit {
        artifact: aid(1),
        class_jni: "La;".to_string(),
        modified: "x".to_string(),
    });
    assert_eq!(s.get(&aid(1), &"La;".to_string()).expect("staged").modified, "x");
    assert!(s.of_class(&"Lb;".to_string()).is_none());
}

#[test]
fn toggling_twice_restores_the_rows() {
    let tree = Tree {
        roots: vec![
            Node::Group {
                label: "g".to_string(),
                children: vec![Node::Leaf { label: "l".to_string(), leaf_id: LeafId(0) }],
            },
            Node::Leaf { label: "m".to_string(), leaf_id: LeafId(1) },
        ],
    };
    let mut open = Expanded::new();
    assert_eq!(flatten(&tree, &open).len(), 2);
    open.toggle(&vec![0]);
    assert!(open.contains(&vec![0]));
    let rows = flatten(&tree, &open);
    assert_eq!(rows.len(), 3);
    assert_eq!(rows[1].depth, 1);
    assert!(matches!(&rows[1].kind, RowKind::Leaf { leaf_id: LeafId(0), label } if label == "l"));
    open.toggle(&vec![0]);
    assert_eq!(flatten(&tree, &open).len(), 2);
}

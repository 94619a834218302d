use glass_ui::palette::{BinaryGrammar, Palette, PaletteMode};
use glass_ui::shell::{
    annotations_chip, body, changes_chip, header_text, overlays, render_disasm_edit_suggestions,
    render_export_progress, route_activate, route_close, route_horizontal, route_page,
    route_palette_mode, route_resize, route_typed, route_untaken, route_vertical,
    scroll_into_view_with_context, tint_swatches, ActivateRoute, CloseRoute, EditSuggestion,
    EditSuggestionKind, HorizontalRoute, InjectionPhase, OpenAttempt, Overlay, PageRoute,
    PaletteKey, PointerEvent, ResizeStep, ShellBody, ShellState, Surfaces, TypeRoute, TypedKey,
    VerticalRoute,
};

fn nothing() -> Surfaces {
    Surfaces {
        palette: false,
        palette_scoped: false,
        annotation_edit: false,
        palette_mode: PaletteMode::Text,
        palette_grammar: BinaryGrammar::Bytes,
        context_menu: false,
        colour_picker: false,
        about: false,
        changes_dialog: false,
        injection_dialog: false,
        injection_progress: false,
        server_install: false,
        export_running: false,
        disasm_edit: false,
        disasm_suggestions: false,
        hex_edit: false,
        string_edit: false,
        class_edit: false,
        field_edit: false,
        method_edit: false,
        annotation_stack: false,
        op_edit: false,
        op_suggestions: false,
        code_editor: false,
        debug_dock: false,
        traces_dialog: false,
        hooks_dialog: false,
        device_picker: false,
        app_menu: false,
    }
}

#[test]
fn titles_and_bodies() {
    assert_eq!(header_text(&ShellState::Empty, None), "Glass — no bundle loaded");
    assert_eq!(header_text(&ShellState::Loading, None), "Glass — Loading…");
    assert_eq!(header_text(&ShellState::Loading, Some("a.apk")), "Glass — Loading a.apk");
    let failed = ShellState::Error("boom".to_string());
    assert_eq!(header_text(&failed, None), "Glass — load failed");
    assert!(matches!(body(&failed), ShellBody::Message(m) if m == "Load failed: boom"));
    assert!(matches!(body(&ShellState::Empty), ShellBody::Welcome));
    assert!(matches!(body(&ShellState::Loading), ShellBody::Progress));
}

#[test]
fn annotations_chip_needs_a_bundle() {
    for state in [ShellState::Empty, ShellState::Loading, ShellState::Error("x".to_string())] {
        assert_eq!(annotations_chip(&state, true), None);
        assert_eq!(annotations_chip(&state, false), None);
    }
}

#[test]
fn one_tint_swatch_is_selected() {
    assert_eq!(tint_swatches(0), vec![true, false, false, false, false]);
    assert_eq!(tint_swatches(3), vec![false, false, false, true, false]);
    assert_eq!(tint_swatches(5), vec![false; 5]);
}

#[test]
fn pages_scroll_the_editor_or_the_listing() {
    assert_eq!(route_page(&nothing()), PageRoute::Listing);
    assert_eq!(
        route_page(&Surfaces { palette: true, op_edit: true, ..nothing() }),
        PageRoute::Listing
    );
    assert_eq!(
        route_page(&Surfaces { code_editor: true, ..nothing() }),
        PageRoute::CodeEditor
    );
}

#[test]
fn palette_modes_switch_while_it_is_open() {
    assert_eq!(route_palette_mode(&nothing(), PaletteMode::Binary), None);
    let open = Surfaces { palette: true, ..nothing() };
    assert_eq!(route_palette_mode(&open, PaletteMode::Binary), Some(PaletteMode::Binary));
    assert_eq!(route_palette_mode(&open, PaletteMode::Text), Some(PaletteMode::Text));
}

#[test]
fn edges_move_only_during_a_drag() {
    let dragged = PointerEvent::Moved { left_pressed: true };
    let hovered = PointerEvent::Moved { left_pressed: false };
    assert_eq!(route_resize(true, dragged), ResizeStep::Update);
    assert_eq!(route_resize(true, hovered), ResizeStep::Ignore);
    assert_eq!(route_resize(true, PointerEvent::LeftReleased), ResizeStep::Finish);
    for event in [dragged, hovered, PointerEvent::LeftReleased] {
        assert_eq!(route_resize(false, event), ResizeStep::Ignore);
    }
}

#[test]
fn changes_are_counted() {
    assert_eq!(changes_chip(0, 0, 0, 0), None);
    assert_eq!(changes_chip(0, 1, 0, 0).as_deref(), Some("1 change"));
    assert_eq!(changes_chip(2, 1, 3, 4).as_deref(), Some("10 changes"));
}

#[test]
fn scrolling_leaves_context_above() {
    assert_eq!(scroll_into_view_with_context(100, None), 95);
    assert_eq!(scroll_into_view_with_context(100, Some(20)), 97);
    assert_eq!(scroll_into_view_with_context(100, Some(80)), 92);
    assert_eq!(scroll_into_view_with_context(2, Some(80)), 0);
}

#[test]
fn layers_stack_in_order() {
    let s = Surfaces {
        palette: true,
        debug_dock: true,
        device_picker: true,
        app_menu: true,
        hex_edit: true,
        string_edit: true,
        op_suggestions: true,
        ..nothing()
    };
    assert_eq!(
        overlays(&s),
        vec![
            Overlay::DebugDock,
            Overlay::Palette,
            Overlay::StringEdit,
            Overlay::DevicePicker,
            Overlay::AppMenu,
        ]
    );
    assert!(overlays(&nothing()).is_empty());
}

#[test]
fn escape_peels_one_layer() {
    let s = Surfaces { palette: true, palette_scoped: true, ..nothing() };
    assert_eq!(route_close(&s), CloseRoute::ClearPaletteScope);
    assert_eq!(
        route_close(&Surfaces { palette_scoped: false, ..s }),
        CloseRoute::CloseAll
    );
    let op = Surfaces { op_edit: true, op_suggestions: true, ..s };
    assert_eq!(route_close(&op), CloseRoute::DropOpSuggestions);
    assert_eq!(
        route_close(&Surfaces { op_suggestions: false, ..op }),
        CloseRoute::CancelOpEdit
    );
    assert_eq!(
        route_close(&Surfaces { disasm_edit: true, hex_edit: true, ..op }),
        CloseRoute::CancelDisasmEdit
    );
    assert_eq!(
        route_close(&Surfaces { changes_dialog: true, annotation_edit: true, ..s }),
        CloseRoute::CloseChangesDialog
    );
}

#[test]
fn arrows_go_to_what_covers_the_listing() {
    assert_eq!(route_vertical(&nothing()), VerticalRoute::ListingSelection);
    let s = Surfaces { palette: true, code_editor: true, ..nothing() };
    assert_eq!(route_vertical(&s), VerticalRoute::CodeEditor);
    assert_eq!(route_horizontal(&s), HorizontalRoute::CodeEditor);
    assert_eq!(
        route_horizontal(&Surfaces { palette: true, ..nothing() }),
        HorizontalRoute::Ignored
    );
    assert_eq!(route_horizontal(&nothing()), HorizontalRoute::HexCursor);
}

#[test]
fn enter_commits_before_it_opens() {
    assert_eq!(route_activate(&nothing()), ActivateRoute::OpenSelection);
    let s = Surfaces { palette: true, op_edit: true, ..nothing() };
    assert_eq!(route_activate(&s), ActivateRoute::CommitOpEdit);
    assert_eq!(
        route_activate(&Surfaces { disasm_edit: true, disasm_suggestions: true, ..s }),
        ActivateRoute::CommitDisasmSuggestion
    );
    let mut tried = Vec::new();
    let mut next = Some(OpenAttempt::first());
    while let Some(a) = next {
        tried.push(a);
        next = a.next(false);
    }
    assert_eq!(tried.len(), 6);
    assert_eq!(tried[5], OpenAttempt::ListingRow);
    assert_eq!(OpenAttempt::first().next(true), None);
}

#[test]
fn typing_reaches_the_palette_last() {
    let s = Surfaces { about: true, disasm_edit: true, ..nothing() };
    assert_eq!(route_typed(&s, TypedKey::Escape), TypeRoute::CloseAbout);
    assert_eq!(route_typed(&s, TypedKey::Other), TypeRoute::DisasmEdit);
    assert_eq!(route_typed(&nothing(), TypedKey::Other), TypeRoute::CodeEditor);
    let mut p = Palette::new();
    p.toggle_palette(None, &Vec::new());
    p.palette_set_mode_binary();
    let open = nothing().with_palette(&p);
    assert_eq!(route_untaken(&open, TypedKey::Tab), PaletteKey::Type);
    assert_eq!(route_untaken(&open, TypedKey::CommandB), PaletteKey::ToggleGrammar);
    p.palette_toggle_bin_grammar(Vec::new());
    let typed = nothing().with_palette(&p);
    assert_eq!(route_untaken(&typed, TypedKey::Tab), PaletteKey::CommitTemplate);
    assert_eq!(
        route_untaken(&Surfaces { annotation_edit: true, ..typed }, TypedKey::Tab),
        PaletteKey::Type
    );
    assert_eq!(route_untaken(&nothing(), TypedKey::Tab), PaletteKey::Nothing);
}

#[test]
fn suggestions_are_headed_and_capped() {
    let one = |i: usize| EditSuggestion {
        label: format!("l{}", i),
        commit_text: format!("c{}", i),
        detail: format!("d{}", i),
        kind: EditSuggestionKind::Register,
    };
    let list: Vec<EditSuggestion> = (0..20).map(one).collect();
    let p = render_disasm_edit_suggestions(&list, 3);
    assert_eq!(p.header, "Registers  (Tab to insert)");
    assert_eq!(p.rows.len(), 12);
    assert!(p.rows[3].selected && !p.rows[4].selected);
    assert_eq!(p.rows[11].detail, "d11");
    assert_eq!(render_disasm_edit_suggestions(&Vec::new(), 0).header, "Suggestions");
}

#[test]
fn export_bar_sweeps() {
    assert_eq!(render_export_progress(0), 0);
    assert_eq!(render_export_progress(350), 112_000);
    assert_eq!(render_export_progress(700), 224_000);
    assert_eq!(render_export_progress(1050), 112_000);
    assert_eq!(render_export_progress(1_700_000_000_000 / 1400 * 1400 + 10), 3200);
}

#[test]
fn injection_phases_are_labelled() {
    assert_eq!(InjectionPhase::Exporting.label(), "Exporting patched APK…");
    assert_eq!(InjectionPhase::Signing.label(), "Signing patched APK…");
    assert_eq!(InjectionPhase::Installing.label(), "Installing on device…");
    assert_eq!(InjectionPhase::Done.label(), "Done.");
}

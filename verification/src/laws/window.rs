//! The window: its texts, its layers, and where keys go.

use crate::digits::decimal;
use crate::shell::{
    activates, changes_text, chunk_position, climbs, closes, law_layers_are_stacked_once,
    layer_count, layers_below, palette_key, resizes, scrolled_top, sidles, suggestion_header, title,
    types_to, EditSuggestion, InjectionPhase, OpenAttempt, Overlay, PointerEvent, ShellState,
    Surfaces, TypedKey, SUGGESTION_ROWS, TINT_SLOTS,
};
use vstd::prelude::*;

verus! {

// ---- texts -----------------------------------------------------------------

/// A loaded bundle shows its own title, every other state says what it is.
pub proof fn law_title(state: ShellState, loading: Option<Seq<char>>)
    ensures
        state matches ShellState::Ready(b) ==> title(state, loading) == b.title@,
        state is Loading && loading is Some ==> title(state, loading) == "Glass — Loading "@
            + loading->0,
        state is Loading && loading is None ==> title(state, loading) == "Glass — Loading…"@,
        state is Error ==> title(state, loading) == "Glass — load failed"@,
        state is Empty ==> title(state, loading) == "Glass — no bundle loaded"@,
{
}

/// The number of changes is told from one on, in the plural from two on.
pub proof fn law_changes_text(count: int)
    requires
        count >= 0,
    ensures
        changes_text(count) is Some <==> count > 0,
        count == 1 ==> changes_text(count) == Some(decimal(1) + " change"@),
        count > 1 ==> changes_text(count) == Some(decimal(count) + " changes"@),
{
}

/// What the suggestions complete stands above them.
pub proof fn law_suggestion_header(list: Seq<EditSuggestion>)
    ensures
        list.len() == 0 ==> suggestion_header(list) == "Suggestions"@,
        list.len() > 0 && list[0].kind is Mnemonic ==> suggestion_header(list)
            == "Mnemonics  (Tab to insert)"@,
        list.len() > 0 && list[0].kind is Symbol ==> suggestion_header(list)
            == "Symbols  (Tab to insert)"@,
        list.len() > 0 && list[0].kind is Register ==> suggestion_header(list)
            == "Registers  (Tab to insert)"@,
        SUGGESTION_ROWS == 12,
        TINT_SLOTS == 5,
{
}

/// Each step of an injection has its headline.
pub proof fn law_headline(p: InjectionPhase)
    ensures
        p is Exporting ==> p.headline() == "Exporting patched APK…"@,
        p is Signing ==> p.headline() == "Signing patched APK…"@,
        p is Installing ==> p.headline() == "Installing on device…"@,
        p is Done ==> p.headline() == "Done."@,
{
}

// ---- scrolling and sliding -------------------------------------------------

/// A list that scrolls to a row keeps rows above it on show: five where its height
/// is not known, else a tenth of them and at least three, as far as there are any.
pub proof fn law_scrolling(target: int, visible: Option<usize>, above: int)
    requires
        target >= 0,
        visible is None ==> above == 5,
        visible matches Some(v) ==> above >= 3 && 10 * above <= if v > 30 {
            v as int
        } else {
            30
        } && v < 10 * above + 10,
    ensures
        target >= above ==> target - scrolled_top(target, visible) == above,
        target < above ==> scrolled_top(target, visible) == 0,
{
}

/// The bar moves 0.32 pixels per millisecond, to the right for 700 milliseconds and
/// back for as long.
pub proof fn law_bar_moves_evenly(now_ms: int)
    requires
        now_ms >= 0,
    ensures
        now_ms % 1400 == 0 ==> chunk_position(now_ms) == 0,
        now_ms % 1400 < 700 ==> chunk_position(now_ms + 1) == chunk_position(now_ms) + 320,
        now_ms % 1400 >= 700 ==> chunk_position(now_ms + 1) == chunk_position(now_ms) - 320,
{
    if now_ms % 1400 == 1399 {
        assert((now_ms + 1) % 1400 == 0);
    } else {
        assert((now_ms + 1) % 1400 == now_ms % 1400 + 1);
    }
}

// ---- layers ----------------------------------------------------------------

/// A layer is on show exactly if its surface is open. Suggestions show with the edit
/// that they belong to, and a string edit is an edit of bytes.
pub proof fn law_layer_on_show(s: Surfaces)
    ensures
        Overlay::DebugDock.on_show(s) == s.debug_dock,
        Overlay::TracesDialog.on_show(s) == s.traces_dialog,
        Overlay::HooksDialog.on_show(s) == s.hooks_dialog,
        Overlay::Palette.on_show(s) == s.palette,
        Overlay::ContextMenu.on_show(s) == s.context_menu,
        Overlay::ColourPicker.on_show(s) == s.colour_picker,
        Overlay::About.on_show(s) == s.about,
        Overlay::Changes.on_show(s) == s.changes_dialog,
        Overlay::InjectionDialog.on_show(s) == s.injection_dialog,
        Overlay::InjectionProgress.on_show(s) == s.injection_progress,
        Overlay::ServerInstall.on_show(s) == s.server_install,
        Overlay::ExportProgress.on_show(s) == s.export_running,
        Overlay::StringEdit.on_show(s) == (s.hex_edit && s.string_edit),
        Overlay::ClassEdit.on_show(s) == s.class_edit,
        Overlay::FieldEdit.on_show(s) == s.field_edit,
        Overlay::MethodEdit.on_show(s) == s.method_edit,
        Overlay::Annotations.on_show(s) == s.annotation_stack,
        Overlay::DisasmSuggestions.on_show(s) == (s.disasm_edit && s.disasm_suggestions),
        Overlay::OpSuggestions.on_show(s) == (s.op_edit && s.op_suggestions),
        Overlay::DevicePicker.on_show(s) == s.device_picker,
        Overlay::AppMenu.on_show(s) == s.app_menu,
{
}

/// Layers cover each other in a fixed order: the dock lowest, then the dialogs of
/// the debugger, the palette, the menus and boxes, progress, the forms with
/// annotations above them, suggestions, the device picker, and the menu bar.
pub proof fn law_layer_order()
    ensures
        Overlay::DebugDock.height() < Overlay::TracesDialog.height() < Overlay::HooksDialog.height()
            < Overlay::Palette.height() < Overlay::ContextMenu.height()
            < Overlay::ColourPicker.height() < Overlay::About.height() < Overlay::Changes.height()
            < Overlay::InjectionDialog.height() < Overlay::InjectionProgress.height()
            < Overlay::ServerInstall.height() < Overlay::ExportProgress.height()
            < Overlay::StringEdit.height() < Overlay::ClassEdit.height()
            < Overlay::FieldEdit.height() < Overlay::MethodEdit.height()
            < Overlay::Annotations.height() < Overlay::DisasmSuggestions.height()
            < Overlay::OpSuggestions.height() < Overlay::DevicePicker.height()
            < Overlay::AppMenu.height(),
{
}

/// Of two layers on show the one that covers the other is listed later.
pub proof fn law_layers_stack(s: Surfaces, low: Overlay, high: Overlay, i: int, j: int)
    requires
        low.height() < high.height(),
        0 <= i < layers_below(s, layer_count()).len(),
        0 <= j < layers_below(s, layer_count()).len(),
        layers_below(s, layer_count())[i] == low,
        layers_below(s, layer_count())[j] == high,
    ensures
        low.on_show(s),
        high.on_show(s),
        i < j,
{
    law_layers_are_stacked_once(s, low);
    law_layers_are_stacked_once(s, high);
    let all = layers_below(s, layer_count());
    assert(all.contains(all[i]));
    assert(all.contains(all[j]));
    if j < i {
        assert(all[j].height() < all[i].height());
    }
}

// ---- keys ------------------------------------------------------------------

/// An edit of an instruction or of bytes comes before every other surface.
pub open spec fn edits_code(s: Surfaces) -> bool {
    s.disasm_edit || s.hex_edit
}

/// A form for a class, a field, a method or annotations is open.
pub open spec fn edits_form(s: Surfaces) -> bool {
    s.annotation_stack || s.class_edit || s.field_edit || s.method_edit
}

/// Escape cancels the innermost edit that is open; annotations come before the form
/// below them, and suggestions before the edit that they belong to. Then come the
/// changes dialog, an annotation being typed, and the scope of the palette.
pub proof fn law_escape(s: Surfaces)
    ensures
        closes(s) is CancelDisasmEdit <==> s.disasm_edit,
        closes(s) is CancelHexEdit <==> s.hex_edit && !s.disasm_edit,
        closes(s) is CancelAnnotationFrame <==> s.annotation_stack && !edits_code(s),
        closes(s) is CancelClassEdit <==> s.class_edit && !s.annotation_stack && !edits_code(s),
        closes(s) is CancelFieldEdit <==> s.field_edit && !s.class_edit && !s.annotation_stack
            && !edits_code(s),
        closes(s) is CancelMethodEdit <==> s.method_edit && !s.field_edit && !s.class_edit
            && !s.annotation_stack && !edits_code(s),
        closes(s) is DropOpSuggestions <==> s.op_edit && s.op_suggestions && !edits_form(s)
            && !edits_code(s),
        closes(s) is CancelOpEdit <==> s.op_edit && !s.op_suggestions && !edits_form(s)
            && !edits_code(s),
        closes(s) is CloseChangesDialog <==> s.changes_dialog && !s.op_edit && !edits_form(s)
            && !edits_code(s),
        closes(s) is CancelAnnotationEdit <==> s.annotation_edit && !s.changes_dialog && !s.op_edit
            && !edits_form(s) && !edits_code(s),
        closes(s) is ClearPaletteScope <==> s.palette && s.palette_scoped && !s.annotation_edit
            && !s.changes_dialog && !s.op_edit && !edits_form(s) && !edits_code(s),
        closes(s) is CloseAll <==> !(s.palette && s.palette_scoped) && !s.annotation_edit
            && !s.changes_dialog && !s.op_edit && !edits_form(s) && !edits_code(s),
{
}

/// Up and down go to an edit of an instruction or operation, then to the code
/// editor, the palette, and the listing.
pub proof fn law_up_and_down(s: Surfaces)
    ensures
        climbs(s) is DisasmSuggestions <==> s.disasm_edit,
        climbs(s) is OpEdit <==> s.op_edit && !s.disasm_edit,
        climbs(s) is CodeEditor <==> s.code_editor && !s.op_edit && !s.disasm_edit,
        climbs(s) is Palette <==> s.palette && !s.code_editor && !s.op_edit && !s.disasm_edit,
        climbs(s) is ListingSelection <==> !s.palette && !s.code_editor && !s.op_edit
            && !s.disasm_edit,
{
}

/// Left and right go to the form that is open, then to an operation, the code
/// editor, and the hex cursor, which a text input shields.
pub proof fn law_left_and_right(s: Surfaces)
    ensures
        sidles(s) is Annotations <==> s.annotation_stack,
        sidles(s) is ClassEdit <==> s.class_edit && !s.annotation_stack,
        sidles(s) is FieldEdit <==> s.field_edit && !s.class_edit && !s.annotation_stack,
        sidles(s) is MethodEdit <==> s.method_edit && !s.field_edit && !s.class_edit
            && !s.annotation_stack,
        sidles(s) is OpEdit <==> s.op_edit && !edits_form(s),
        sidles(s) is CodeEditor <==> s.code_editor && !s.op_edit && !edits_form(s),
        sidles(s) is Ignored <==> (edits_code(s) || s.palette) && !s.code_editor && !s.op_edit
            && !edits_form(s),
        sidles(s) is HexCursor <==> !edits_code(s) && !s.palette && !s.code_editor && !s.op_edit
            && !edits_form(s),
{
}

/// Enter commits the edit that is open, its selected suggestion first, then goes to
/// the palette, and else opens what is selected.
pub proof fn law_enter(s: Surfaces)
    ensures
        activates(s) is CommitDisasmSuggestion <==> s.disasm_edit && s.disasm_suggestions,
        activates(s) is CommitDisasmEdit <==> s.disasm_edit && !s.disasm_suggestions,
        activates(s) is CommitHexEdit <==> s.hex_edit && !s.disasm_edit,
        activates(s) is AcceptOpSuggestion <==> s.op_edit && s.op_suggestions && !edits_code(s),
        activates(s) is CommitOpEdit <==> s.op_edit && !s.op_suggestions && !edits_code(s),
        activates(s) is ActivatePalette <==> s.palette && !s.op_edit && !edits_code(s),
        activates(s) is OpenSelection <==> !s.palette && !s.op_edit && !edits_code(s),
{
}

/// What is selected is opened as a byte, a class, a field, a method, an operation,
/// and at last as a row of the listing.
pub proof fn law_opening_order()
    ensures
        OpenAttempt::HexByte.turn() == 0,
        OpenAttempt::ClassDeclaration.turn() == 1,
        OpenAttempt::Field.turn() == 2,
        OpenAttempt::Method.turn() == 3,
        OpenAttempt::Operation.turn() == 4,
        OpenAttempt::ListingRow.turn() == 5,
{
}

/// Typing goes to the innermost edit that is open, and without one to the code
/// editor. Escape closes the about box before anything else.
pub proof fn law_typing(s: Surfaces, key: TypedKey)
    ensures
        types_to(s, key) is CloseAbout <==> s.about && key is Escape,
        !(s.about && key is Escape) ==> {
            &&& types_to(s, key) is DisasmEdit <==> s.disasm_edit
            &&& types_to(s, key) is HexEdit <==> s.hex_edit && !s.disasm_edit
            &&& types_to(s, key) is Annotations <==> s.annotation_stack && !edits_code(s)
            &&& types_to(s, key) is ClassEdit <==> s.class_edit && !s.annotation_stack
                && !edits_code(s)
            &&& types_to(s, key) is FieldEdit <==> s.field_edit && !s.class_edit
                && !s.annotation_stack && !edits_code(s)
            &&& types_to(s, key) is MethodEdit <==> s.method_edit && !s.field_edit && !s.class_edit
                && !s.annotation_stack && !edits_code(s)
            &&& types_to(s, key) is OpEdit <==> s.op_edit && !edits_form(s) && !edits_code(s)
            &&& types_to(s, key) is CodeEditor <==> !s.op_edit && !edits_form(s) && !edits_code(s)
        },
{
}

/// Keys that nothing else takes go to the palette. In a byte search Tab commits a
/// completion where instructions are typed, and the command key with b changes how
/// the search is written; not so while an annotation is typed.
pub proof fn law_palette_keys(s: Surfaces, key: TypedKey)
    ensures
        palette_key(s, key) is Nothing <==> !s.palette,
        palette_key(s, key) is CommitTemplate <==> s.palette && key is Tab && s.palette_mode is Binary
            && s.palette_grammar is Asm && !s.annotation_edit,
        palette_key(s, key) is ToggleGrammar <==> s.palette && key is CommandB
            && s.palette_mode is Binary && !s.annotation_edit,
{
}

/// An edge is dragged from when it was seized, while the button is held, until it is
/// let go.
pub proof fn law_dragging(anchored: bool, event: PointerEvent)
    ensures
        resizes(anchored, event) is Update <==> anchored && event == (PointerEvent::Moved {
            left_pressed: true,
        }),
        resizes(anchored, event) is Finish <==> anchored && event is LeftReleased,
{
}

} // verus!

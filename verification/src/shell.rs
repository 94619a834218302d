//! The window: what its header and body say, which overlays it shows, and where
//! keys go.

use crate::bundle::LoadedBundle;
use crate::digits::{decimal, to_decimal};
use crate::palette::{BinaryGrammar, Palette, PaletteMode};
use crate::text::{join2, owned};
use vstd::prelude::*;

verus! {

/// What a window holds.
pub enum ShellState {
    Empty,
    Loading,
    Ready(LoadedBundle),
    Error(String),
}

// ---- header and body -------------------------------------------------------

/// The title of a window.
pub open spec fn title(state: ShellState, loading: Option<Seq<char>>) -> Seq<char> {
    match state {
        ShellState::Ready(b) => b.title@,
        ShellState::Loading => match loading {
            Some(label) => "Glass — Loading "@ + label,
            None => "Glass — Loading…"@,
        },
        ShellState::Error(_) => "Glass — load failed"@,
        ShellState::Empty => "Glass — no bundle loaded"@,
    }
}

/// The title of a window. `loading` is the label of the bundle being loaded, if
/// it is known.
pub fn header_text(state: &ShellState, loading: Option<&str>) -> (r: String)
    ensures
        r@ == title(
            *state,
            match loading {
                Some(l) => Some(l@),
                None => None,
            },
        ),
{
    match state {
        ShellState::Ready(b) => b.title.clone(),
        ShellState::Loading => match loading {
            Some(label) => join2("Glass — Loading ", label),
            None => owned("Glass — Loading…"),
        },
        ShellState::Error(_) => owned("Glass — load failed"),
        ShellState::Empty => owned("Glass — no bundle loaded"),
    }
}

/// What a window shows below its header.
#[derive(Debug)]
pub enum ShellBody {
    /// The offer to open a file.
    Welcome,
    Progress,
    TwoPane,
    Message(String),
}

/// What a window shows below its header.
pub fn body(state: &ShellState) -> (r: ShellBody)
    ensures
        match *state {
            ShellState::Ready(_) => r is TwoPane,
            ShellState::Loading => r is Progress,
            ShellState::Empty => r is Welcome,
            ShellState::Error(m) => r matches ShellBody::Message(t) && t@ == "Load failed: "@ + m@,
        },
{
    match state {
        ShellState::Ready(_) => ShellBody::TwoPane,
        ShellState::Loading => ShellBody::Progress,
        ShellState::Empty => ShellBody::Welcome,
        ShellState::Error(m) => ShellBody::Message(join2("Load failed: ", m.as_str())),
    }
}

/// The chip that counts staged edits; `None` without any.
pub open spec fn changes_text(count: int) -> Option<Seq<char>> {
    if count == 0 {
        None
    } else if count == 1 {
        Some(decimal(count) + " change"@)
    } else {
        Some(decimal(count) + " changes"@)
    }
}

/// The chip that counts the staged edits of native code, classes, property lists
/// and manifests; `None` without any.
pub fn changes_chip(native: usize, classes: usize, plists: usize, manifests: usize) -> (r: Option<
    String,
>)
    requires
        native + classes + plists + manifests <= usize::MAX,
    ensures
        match (r, changes_text(native + classes + plists + manifests)) {
            (Some(t), Some(s)) => t@ == s,
            (None, None) => true,
            _ => false,
        },
{
    let count: usize = native + classes + plists + manifests;
    if count == 0 {
        return None;
    }
    let n = to_decimal(count as u64);
    Some(
        join2(
            n.as_str(),
            if count == 1 {
                " change"
            } else {
                " changes"
            },
        ),
    )
}

/// What a click on the annotations chip does to the annotations pane.
#[derive(Clone, Copy, Debug, PartialEq, Eq, Structural)]
pub enum PaneToggle {
    Open,
    Close,
}

/// The chip in the header that opens and closes the annotations pane.
#[derive(Clone, Copy, Debug, PartialEq, Eq, Structural)]
pub struct AnnotationsChip {
    /// Its dot is lit.
    pub lit: bool,
    pub click: PaneToggle,
}

/// The annotations chip: on show for a loaded bundle only, lit while the pane is
/// open.
pub fn annotations_chip(state: &ShellState, pane_open: bool) -> (r: Option<AnnotationsChip>)
    ensures
        r == (match *state {
            ShellState::Ready(_) => Some(
                AnnotationsChip {
                    lit: pane_open,
                    click: if pane_open {
                        PaneToggle::Close
                    } else {
                        PaneToggle::Open
                    },
                },
            ),
            _ => None,
        }),
{
    match state {
        ShellState::Ready(_) => Some(
            AnnotationsChip {
                lit: pane_open,
                click: if pane_open {
                    PaneToggle::Close
                } else {
                    PaneToggle::Open
                },
            },
        ),
        _ => None,
    }
}

/// Number of window tints to choose from.
pub const TINT_SLOTS: u8 = 5;

/// The swatches of the window tints, one per slot, each with whether it is the
/// current one.
pub fn tint_swatches(current: u8) -> (r: Vec<bool>)
    ensures
        r@ == Seq::new(TINT_SLOTS as nat, |slot: int| slot == current),
{
    let mut r: Vec<bool> = Vec::new();
    let mut slot: u8 = 0;
    while slot < TINT_SLOTS
        invariant
            slot <= TINT_SLOTS,
            r@ == Seq::new(slot as nat, |i: int| i == current),
        decreases TINT_SLOTS - slot,
    {
        r.push(slot == current);
        assert(r@ =~= Seq::new((slot + 1) as nat, |i: int| i == current));
        slot += 1;
    }
    r
}

// ---- scrolling -------------------------------------------------------------

/// The first row on show when a list scrolls to `target`: a tenth of the visible
/// rows above it, three at least; five where the height is not known yet.
pub open spec fn scrolled_top(target: int, visible_rows: Option<usize>) -> int {
    let context: int = match visible_rows {
        Some(v) => if v as int / 10 > 3 {
            v as int / 10
        } else {
            3
        },
        None => 5,
    };
    if target >= context {
        target - context
    } else {
        0
    }
}

/// The first row on show when a list scrolls to `target`.
pub fn scroll_into_view_with_context(target: usize, visible_rows: Option<usize>) -> (r: usize)
    ensures
        r == scrolled_top(target as int, visible_rows),
        r <= target,
{
    let context: usize = match visible_rows {
        Some(v) => if v / 10 > 3 {
            v / 10
        } else {
            3
        },
        None => 5,
    };
    if target >= context {
        target - context
    } else {
        0
    }
}

// ---- overlays and keys -----------------------------------------------------

/// What is open in a window.
#[derive(Clone, Copy, Debug, PartialEq, Eq, Structural)]
pub struct Surfaces {
    pub palette: bool,
    /// The palette shows a scope.
    pub palette_scoped: bool,
    /// The palette edits an annotation.
    pub annotation_edit: bool,
    /// Text or byte search.
    pub palette_mode: PaletteMode,
    pub palette_grammar: BinaryGrammar,
    pub context_menu: bool,
    pub colour_picker: bool,
    pub about: bool,
    pub changes_dialog: bool,
    pub injection_dialog: bool,
    pub injection_progress: bool,
    pub server_install: bool,
    pub export_running: bool,
    pub disasm_edit: bool,
    /// The edit of an instruction has suggestions.
    pub disasm_suggestions: bool,
    pub hex_edit: bool,
    /// The edit of bytes is one of a string.
    pub string_edit: bool,
    pub class_edit: bool,
    pub field_edit: bool,
    pub method_edit: bool,
    /// Annotations are edited above another form.
    pub annotation_stack: bool,
    pub op_edit: bool,
    /// The edit of a smali operation has suggestions.
    pub op_suggestions: bool,
    /// The active tab is a code editor.
    pub code_editor: bool,
    pub debug_dock: bool,
    pub traces_dialog: bool,
    pub hooks_dialog: bool,
    pub device_picker: bool,
    /// A menu of the in-window menu bar is open.
    pub app_menu: bool,
}

/// A layer above the body of a window.
#[derive(Clone, Copy, Debug, PartialEq, Eq, Structural)]
pub enum Overlay {
    DebugDock,
    TracesDialog,
    HooksDialog,
    Palette,
    ContextMenu,
    ColourPicker,
    About,
    Changes,
    InjectionDialog,
    InjectionProgress,
    ServerInstall,
    ExportProgress,
    StringEdit,
    ClassEdit,
    FieldEdit,
    MethodEdit,
    Annotations,
    DisasmSuggestions,
    OpSuggestions,
    DevicePicker,
    AppMenu,
}

impl Overlay {
    /// Whether a layer is on show.
    pub open spec fn on_show(self, s: Surfaces) -> bool {
        match self {
            Overlay::DebugDock => s.debug_dock,
            Overlay::TracesDialog => s.traces_dialog,
            Overlay::HooksDialog => s.hooks_dialog,
            Overlay::Palette => s.palette,
            Overlay::ContextMenu => s.context_menu,
            Overlay::ColourPicker => s.colour_picker,
            Overlay::About => s.about,
            Overlay::Changes => s.changes_dialog,
            Overlay::InjectionDialog => s.injection_dialog,
            Overlay::InjectionProgress => s.injection_progress,
            Overlay::ServerInstall => s.server_install,
            Overlay::ExportProgress => s.export_running,
            Overlay::StringEdit => s.hex_edit && s.string_edit,
            Overlay::ClassEdit => s.class_edit,
            Overlay::FieldEdit => s.field_edit,
            Overlay::MethodEdit => s.method_edit,
            Overlay::Annotations => s.annotation_stack,
            Overlay::DisasmSuggestions => s.disasm_edit && s.disasm_suggestions,
            Overlay::OpSuggestions => s.op_edit && s.op_suggestions,
            Overlay::DevicePicker => s.device_picker,
            Overlay::AppMenu => s.app_menu,
        }
    }

    /// Whether a layer is on show.
    fn shown(self, s: &Surfaces) -> (r: bool)
        ensures
            r == self.on_show(*s),
    {
        match self {
            Overlay::DebugDock => s.debug_dock,
            Overlay::TracesDialog => s.traces_dialog,
            Overlay::HooksDialog => s.hooks_dialog,
            Overlay::Palette => s.palette,
            Overlay::ContextMenu => s.context_menu,
            Overlay::ColourPicker => s.colour_picker,
            Overlay::About => s.about,
            Overlay::Changes => s.changes_dialog,
            Overlay::InjectionDialog => s.injection_dialog,
            Overlay::InjectionProgress => s.injection_progress,
            Overlay::ServerInstall => s.server_install,
            Overlay::ExportProgress => s.export_running,
            Overlay::StringEdit => s.hex_edit && s.string_edit,
            Overlay::ClassEdit => s.class_edit,
            Overlay::FieldEdit => s.field_edit,
            Overlay::MethodEdit => s.method_edit,
            Overlay::Annotations => s.annotation_stack,
            Overlay::DisasmSuggestions => s.disasm_edit && s.disasm_suggestions,
            Overlay::OpSuggestions => s.op_edit && s.op_suggestions,
            Overlay::DevicePicker => s.device_picker,
            Overlay::AppMenu => s.app_menu,
        }
    }

    /// The height of a layer: the higher one covers the lower one.
    pub open spec fn height(self) -> int {
        match self {
            Overlay::DebugDock => 0,
            Overlay::TracesDialog => 1,
            Overlay::HooksDialog => 2,
            Overlay::Palette => 3,
            Overlay::ContextMenu => 4,
            Overlay::ColourPicker => 5,
            Overlay::About => 6,
            Overlay::Changes => 7,
            Overlay::InjectionDialog => 8,
            Overlay::InjectionProgress => 9,
            Overlay::ServerInstall => 10,
            Overlay::ExportProgress => 11,
            Overlay::StringEdit => 12,
            Overlay::ClassEdit => 13,
            Overlay::FieldEdit => 14,
            Overlay::MethodEdit => 15,
            Overlay::Annotations => 16,
            Overlay::DisasmSuggestions => 17,
            Overlay::OpSuggestions => 18,
            Overlay::DevicePicker => 19,
            Overlay::AppMenu => 20,
        }
    }
}

/// The layer at a height.
pub open spec fn layer_at(n: int) -> Overlay {
    if n == 0 {
        Overlay::DebugDock
    } else if n == 1 {
        Overlay::TracesDialog
    } else if n == 2 {
        Overlay::HooksDialog
    } else if n == 3 {
        Overlay::Palette
    } else if n == 4 {
        Overlay::ContextMenu
    } else if n == 5 {
        Overlay::ColourPicker
    } else if n == 6 {
        Overlay::About
    } else if n == 7 {
        Overlay::Changes
    } else if n == 8 {
        Overlay::InjectionDialog
    } else if n == 9 {
        Overlay::InjectionProgress
    } else if n == 10 {
        Overlay::ServerInstall
    } else if n == 11 {
        Overlay::ExportProgress
    } else if n == 12 {
        Overlay::StringEdit
    } else if n == 13 {
        Overlay::ClassEdit
    } else if n == 14 {
        Overlay::FieldEdit
    } else if n == 15 {
        Overlay::MethodEdit
    } else if n == 16 {
        Overlay::Annotations
    } else if n == 17 {
        Overlay::DisasmSuggestions
    } else if n == 18 {
        Overlay::OpSuggestions
    } else if n == 19 {
        Overlay::DevicePicker
    } else {
        Overlay::AppMenu
    }
}

/// The number of layers.
pub open spec fn layer_count() -> int {
    21
}

/// The layers on show below height `n`, lowest first.
pub open spec fn layers_below(s: Surfaces, n: int) -> Seq<Overlay>
    decreases n,
{
    if n <= 0 {
        Seq::empty()
    } else if layer_at(n - 1).on_show(s) {
        layers_below(s, n - 1).push(layer_at(n - 1))
    } else {
        layers_below(s, n - 1)
    }
}

fn layer(n: usize) -> (r: Overlay)
    requires
        n < 21,
    ensures
        r == layer_at(n as int),
{
    match n {
        0 => Overlay::DebugDock,
        1 => Overlay::TracesDialog,
        2 => Overlay::HooksDialog,
        3 => Overlay::Palette,
        4 => Overlay::ContextMenu,
        5 => Overlay::ColourPicker,
        6 => Overlay::About,
        7 => Overlay::Changes,
        8 => Overlay::InjectionDialog,
        9 => Overlay::InjectionProgress,
        10 => Overlay::ServerInstall,
        11 => Overlay::ExportProgress,
        12 => Overlay::StringEdit,
        13 => Overlay::ClassEdit,
        14 => Overlay::FieldEdit,
        15 => Overlay::MethodEdit,
        16 => Overlay::Annotations,
        17 => Overlay::DisasmSuggestions,
        18 => Overlay::OpSuggestions,
        19 => Overlay::DevicePicker,
        _ => Overlay::AppMenu,
    }
}

/// The layers on show, lowest first.
#[verifier::rlimit(60)]
pub fn overlays(s: &Surfaces) -> (r: Vec<Overlay>)
    ensures
        r@ == layers_below(*s, layer_count()),
{
    let mut r: Vec<Overlay> = Vec::new();
    let mut n: usize = 0;
    while n < 21
        invariant
            n <= 21,
            r@ == layers_below(*s, n as int),
        decreases 21 - n,
    {
        let o = layer(n);
        if o.shown(s) {
            r.push(o);
        }
        n += 1;
    }
    r
}

/// Where the Escape key goes.
#[derive(Clone, Copy, Debug, PartialEq, Eq, Structural)]
pub enum CloseRoute {
    CancelDisasmEdit,
    CancelHexEdit,
    CancelAnnotationFrame,
    CancelClassEdit,
    CancelFieldEdit,
    CancelMethodEdit,
    /// The suggestions go first, the editor stays.
    DropOpSuggestions,
    CancelOpEdit,
    CloseChangesDialog,
    CancelAnnotationEdit,
    /// The scope goes first, the palette stays.
    ClearPaletteScope,
    /// Palette, context menu, about box and colour picker.
    CloseAll,
}

/// Where the Escape key goes: to the surface that covers the others.
pub open spec fn closes(s: Surfaces) -> CloseRoute {
    if s.disasm_edit {
        CloseRoute::CancelDisasmEdit
    } else if s.hex_edit {
        CloseRoute::CancelHexEdit
    } else if s.annotation_stack {
        CloseRoute::CancelAnnotationFrame
    } else if s.class_edit {
        CloseRoute::CancelClassEdit
    } else if s.field_edit {
        CloseRoute::CancelFieldEdit
    } else if s.method_edit {
        CloseRoute::CancelMethodEdit
    } else if s.op_edit && s.op_suggestions {
        CloseRoute::DropOpSuggestions
    } else if s.op_edit {
        CloseRoute::CancelOpEdit
    } else if s.changes_dialog {
        CloseRoute::CloseChangesDialog
    } else if s.annotation_edit {
        CloseRoute::CancelAnnotationEdit
    } else if s.palette && s.palette_scoped {
        CloseRoute::ClearPaletteScope
    } else {
        CloseRoute::CloseAll
    }
}

/// Where the Escape key goes.
pub fn route_close(s: &Surfaces) -> (r: CloseRoute)
    ensures
        r == closes(*s),
{
    if s.disasm_edit {
        return CloseRoute::CancelDisasmEdit;
    }
    if s.hex_edit {
        return CloseRoute::CancelHexEdit;
    }
    if s.annotation_stack {
        return CloseRoute::CancelAnnotationFrame;
    }
    if s.class_edit {
        return CloseRoute::CancelClassEdit;
    }
    if s.field_edit {
        return CloseRoute::CancelFieldEdit;
    }
    if s.method_edit {
        return CloseRoute::CancelMethodEdit;
    }
    if s.op_edit {
        return if s.op_suggestions {
            CloseRoute::DropOpSuggestions
        } else {
            CloseRoute::CancelOpEdit
        };
    }
    if s.changes_dialog {
        return CloseRoute::CloseChangesDialog;
    }
    if s.annotation_edit {
        return CloseRoute::CancelAnnotationEdit;
    }
    if s.palette && s.palette_scoped {
        return CloseRoute::ClearPaletteScope;
    }
    CloseRoute::CloseAll
}

/// Where the up and down keys go.
#[derive(Clone, Copy, Debug, PartialEq, Eq, Structural)]
pub enum VerticalRoute {
    DisasmSuggestions,
    OpEdit,
    CodeEditor,
    Palette,
    ListingSelection,
}

/// Where the up and down keys go.
pub open spec fn climbs(s: Surfaces) -> VerticalRoute {
    if s.disasm_edit {
        VerticalRoute::DisasmSuggestions
    } else if s.op_edit {
        VerticalRoute::OpEdit
    } else if s.code_editor {
        VerticalRoute::CodeEditor
    } else if s.palette {
        VerticalRoute::Palette
    } else {
        VerticalRoute::ListingSelection
    }
}

/// Where the up and down keys go.
pub fn route_vertical(s: &Surfaces) -> (r: VerticalRoute)
    ensures
        r == climbs(*s),
{
    if s.disasm_edit {
        return VerticalRoute::DisasmSuggestions;
    }
    if s.op_edit {
        return VerticalRoute::OpEdit;
    }
    if s.code_editor {
        return VerticalRoute::CodeEditor;
    }
    if s.palette {
        return VerticalRoute::Palette;
    }
    VerticalRoute::ListingSelection
}

/// Where the page up and page down keys go.
#[derive(Clone, Copy, Debug, PartialEq, Eq, Structural)]
pub enum PageRoute {
    CodeEditor,
    Listing,
}

/// Where the page up and page down keys go: to the code editor where the active
/// tab is one, to the listing otherwise.
pub fn route_page(s: &Surfaces) -> (r: PageRoute)
    ensures
        r == if s.code_editor {
            PageRoute::CodeEditor
        } else {
            PageRoute::Listing
        },
{
    if s.code_editor {
        PageRoute::CodeEditor
    } else {
        PageRoute::Listing
    }
}

/// What the shortcut for a mode of the palette switches to: nothing while the
/// palette is closed.
pub fn route_palette_mode(s: &Surfaces, mode: PaletteMode) -> (r: Option<PaletteMode>)
    ensures
        r == if s.palette {
            Some(mode)
        } else {
            None
        },
{
    if s.palette {
        Some(mode)
    } else {
        None
    }
}

/// A pointer event anywhere in the window.
#[derive(Clone, Copy, Debug, PartialEq, Eq, Structural)]
pub enum PointerEvent {
    Moved { left_pressed: bool },
    LeftReleased,
}

/// What a pointer event does to the dragging of an edge.
#[derive(Clone, Copy, Debug, PartialEq, Eq, Structural)]
pub enum ResizeStep {
    Ignore,
    Update,
    Finish,
}

/// What a pointer event does to the dragging of an edge.
pub open spec fn resizes(anchored: bool, event: PointerEvent) -> ResizeStep {
    if !anchored {
        ResizeStep::Ignore
    } else {
        match event {
            PointerEvent::Moved { left_pressed: true } => ResizeStep::Update,
            PointerEvent::Moved { left_pressed: false } => ResizeStep::Ignore,
            PointerEvent::LeftReleased => ResizeStep::Finish,
        }
    }
}

/// What a pointer event does to the dragging of the debug dock's edge, or of the
/// splitter beside the navigator. `anchored` says that a drag has begun.
pub fn route_resize(anchored: bool, event: PointerEvent) -> (r: ResizeStep)
    ensures
        r == resizes(anchored, event),
{
    if !anchored {
        return ResizeStep::Ignore;
    }
    match event {
        PointerEvent::Moved { left_pressed } => if left_pressed {
            ResizeStep::Update
        } else {
            ResizeStep::Ignore
        },
        PointerEvent::LeftReleased => ResizeStep::Finish,
    }
}

/// Where the left and right keys go.
#[derive(Clone, Copy, Debug, PartialEq, Eq, Structural)]
pub enum HorizontalRoute {
    Annotations,
    ClassEdit,
    FieldEdit,
    MethodEdit,
    OpEdit,
    CodeEditor,
    /// The key belongs to a text input.
    Ignored,
    HexCursor,
}

/// Where the left and right keys go.
pub open spec fn sidles(s: Surfaces) -> HorizontalRoute {
    if s.annotation_stack {
        HorizontalRoute::Annotations
    } else if s.class_edit {
        HorizontalRoute::ClassEdit
    } else if s.field_edit {
        HorizontalRoute::FieldEdit
    } else if s.method_edit {
        HorizontalRoute::MethodEdit
    } else if s.op_edit {
        HorizontalRoute::OpEdit
    } else if s.code_editor {
        HorizontalRoute::CodeEditor
    } else if s.disasm_edit || s.hex_edit || s.palette {
        HorizontalRoute::Ignored
    } else {
        HorizontalRoute::HexCursor
    }
}

/// Where the left and right keys go.
pub fn route_horizontal(s: &Surfaces) -> (r: HorizontalRoute)
    ensures
        r == sidles(*s),
{
    if s.annotation_stack {
        return HorizontalRoute::Annotations;
    }
    if s.class_edit {
        return HorizontalRoute::ClassEdit;
    }
    if s.field_edit {
        return HorizontalRoute::FieldEdit;
    }
    if s.method_edit {
        return HorizontalRoute::MethodEdit;
    }
    if s.op_edit {
        return HorizontalRoute::OpEdit;
    }
    if s.code_editor {
        return HorizontalRoute::CodeEditor;
    }
    if s.disasm_edit || s.hex_edit || s.palette {
        return HorizontalRoute::Ignored;
    }
    HorizontalRoute::HexCursor
}

/// Where the Enter key goes.
#[derive(Clone, Copy, Debug, PartialEq, Eq, Structural)]
pub enum ActivateRoute {
    CommitDisasmSuggestion,
    CommitDisasmEdit,
    CommitHexEdit,
    AcceptOpSuggestion,
    CommitOpEdit,
    ActivatePalette,
    /// Open what is selected for editing: see [`OpenAttempt`].
    OpenSelection,
}

/// Where the Enter key goes.
pub open spec fn activates(s: Surfaces) -> ActivateRoute {
    if s.disasm_edit && s.disasm_suggestions {
        ActivateRoute::CommitDisasmSuggestion
    } else if s.disasm_edit {
        ActivateRoute::CommitDisasmEdit
    } else if s.hex_edit {
        ActivateRoute::CommitHexEdit
    } else if s.op_edit && s.op_suggestions {
        ActivateRoute::AcceptOpSuggestion
    } else if s.op_edit {
        ActivateRoute::CommitOpEdit
    } else if s.palette {
        ActivateRoute::ActivatePalette
    } else {
        ActivateRoute::OpenSelection
    }
}

/// Where the Enter key goes.
pub fn route_activate(s: &Surfaces) -> (r: ActivateRoute)
    ensures
        r == activates(*s),
{
    if s.disasm_edit {
        return if s.disasm_suggestions {
            ActivateRoute::CommitDisasmSuggestion
        } else {
            ActivateRoute::CommitDisasmEdit
        };
    }
    if s.hex_edit {
        return ActivateRoute::CommitHexEdit;
    }
    if s.op_edit {
        return if s.op_suggestions {
            ActivateRoute::AcceptOpSuggestion
        } else {
            ActivateRoute::CommitOpEdit
        };
    }
    if s.palette {
        return ActivateRoute::ActivatePalette;
    }
    ActivateRoute::OpenSelection
}

/// The ways to open what is selected, in the order in which they are tried.
#[derive(Clone, Copy, Debug, PartialEq, Eq, Structural)]
pub enum OpenAttempt {
    HexByte,
    ClassDeclaration,
    Field,
    Method,
    Operation,
    /// Takes what is left; nothing is tried after it.
    ListingRow,
}

impl OpenAttempt {
    /// Position in the order.
    pub open spec fn turn(self) -> int {
        match self {
            OpenAttempt::HexByte => 0,
            OpenAttempt::ClassDeclaration => 1,
            OpenAttempt::Field => 2,
            OpenAttempt::Method => 3,
            OpenAttempt::Operation => 4,
            OpenAttempt::ListingRow => 5,
        }
    }

    /// The first way to try.
    pub fn first() -> (r: OpenAttempt)
        ensures
            r.turn() == 0,
    {
        OpenAttempt::HexByte
    }

    /// The way to try after this one; none once one has opened something.
    pub fn next(self, opened: bool) -> (r: Option<OpenAttempt>)
        ensures
            match r {
                Some(n) => !opened && n.turn() == self.turn() + 1,
                None => opened || self.turn() == 5,
            },
    {
        if opened {
            return None;
        }
        match self {
            OpenAttempt::HexByte => Some(OpenAttempt::ClassDeclaration),
            OpenAttempt::ClassDeclaration => Some(OpenAttempt::Field),
            OpenAttempt::Field => Some(OpenAttempt::Method),
            OpenAttempt::Method => Some(OpenAttempt::Operation),
            OpenAttempt::Operation => Some(OpenAttempt::ListingRow),
            OpenAttempt::ListingRow => None,
        }
    }
}

/// The keys that matter to where typing goes.
#[derive(Clone, Copy, Debug, PartialEq, Eq, Structural)]
pub enum TypedKey {
    Escape,
    Tab,
    /// The letter b with the platform's command key.
    CommandB,
    Other,
}

/// Where a typed key goes.
#[derive(Clone, Copy, Debug, PartialEq, Eq, Structural)]
pub enum TypeRoute {
    CloseAbout,
    DisasmEdit,
    HexEdit,
    Annotations,
    ClassEdit,
    FieldEdit,
    MethodEdit,
    OpEdit,
    /// The code editor may take it; see [`route_untaken`].
    CodeEditor,
}

/// Where a typed key goes.
pub open spec fn types_to(s: Surfaces, key: TypedKey) -> TypeRoute {
    if s.about && key == TypedKey::Escape {
        TypeRoute::CloseAbout
    } else if s.disasm_edit {
        TypeRoute::DisasmEdit
    } else if s.hex_edit {
        TypeRoute::HexEdit
    } else if s.annotation_stack {
        TypeRoute::Annotations
    } else if s.class_edit {
        TypeRoute::ClassEdit
    } else if s.field_edit {
        TypeRoute::FieldEdit
    } else if s.method_edit {
        TypeRoute::MethodEdit
    } else if s.op_edit {
        TypeRoute::OpEdit
    } else {
        TypeRoute::CodeEditor
    }
}

/// Where a typed key goes.
pub fn route_typed(s: &Surfaces, key: TypedKey) -> (r: TypeRoute)
    ensures
        r == types_to(*s, key),
{
    if s.about && key == TypedKey::Escape {
        return TypeRoute::CloseAbout;
    }
    if s.disasm_edit {
        return TypeRoute::DisasmEdit;
    }
    if s.hex_edit {
        return TypeRoute::HexEdit;
    }
    if s.annotation_stack {
        return TypeRoute::Annotations;
    }
    if s.class_edit {
        return TypeRoute::ClassEdit;
    }
    if s.field_edit {
        return TypeRoute::FieldEdit;
    }
    if s.method_edit {
        return TypeRoute::MethodEdit;
    }
    if s.op_edit {
        return TypeRoute::OpEdit;
    }
    TypeRoute::CodeEditor
}

/// What a key does that the code editor did not take.
#[derive(Clone, Copy, Debug, PartialEq, Eq, Structural)]
pub enum PaletteKey {
    Nothing,
    CommitTemplate,
    ToggleGrammar,
    Type,
}

/// What a key does that the code editor did not take: it goes to the palette, if
/// that is open.
pub open spec fn palette_key(s: Surfaces, key: TypedKey) -> PaletteKey {
    if !s.palette {
        PaletteKey::Nothing
    } else if key == TypedKey::Tab && s.palette_mode == PaletteMode::Binary && s.palette_grammar
        == BinaryGrammar::Asm && !s.annotation_edit {
        PaletteKey::CommitTemplate
    } else if key == TypedKey::CommandB && s.palette_mode == PaletteMode::Binary
        && !s.annotation_edit {
        PaletteKey::ToggleGrammar
    } else {
        PaletteKey::Type
    }
}

/// What a key does that the code editor did not take.
pub fn route_untaken(s: &Surfaces, key: TypedKey) -> (r: PaletteKey)
    ensures
        r == palette_key(*s, key),
{
    if !s.palette {
        return PaletteKey::Nothing;
    }
    if s.palette_mode == PaletteMode::Binary && !s.annotation_edit {
        if key == TypedKey::Tab && s.palette_grammar == BinaryGrammar::Asm {
            return PaletteKey::CommitTemplate;
        }
        if key == TypedKey::CommandB {
            return PaletteKey::ToggleGrammar;
        }
    }
    PaletteKey::Type
}

impl Surfaces {
    /// What the palette adds to the surfaces of a window.
    pub fn with_palette(self, p: &Palette) -> (r: Surfaces)
        ensures
            r == (Surfaces {
                palette: p@.open,
                palette_scoped: p@.scope is Some,
                annotation_edit: p@.annotating,
                palette_mode: p@.mode,
                palette_grammar: p@.bin_grammar,
                ..self
            }),
    {
        Surfaces {
            palette: p.open,
            palette_scoped: p.scope.is_some(),
            annotation_edit: p.annotating,
            palette_mode: p.mode,
            palette_grammar: p.bin_grammar,
            ..self
        }
    }
}

// ---- suggestions -----------------------------------------------------------

/// What a suggestion completes.
#[derive(Clone, Copy, Debug, PartialEq, Eq, Structural)]
pub enum EditSuggestionKind {
    Mnemonic,
    Symbol,
    Register,
}

/// One suggestion for the instruction being edited.
#[derive(Debug)]
pub struct EditSuggestion {
    pub label: String,
    pub commit_text: String,
    pub detail: String,
    pub kind: EditSuggestionKind,
}

/// One row of the suggestions.
#[derive(Debug)]
pub struct SuggestionRow {
    pub label: String,
    pub detail: String,
    pub selected: bool,
}

/// The panel of suggestions.
#[derive(Debug)]
pub struct SuggestionPanel {
    pub header: String,
    pub rows: Vec<SuggestionRow>,
}

/// How many suggestions the panel shows at most.
pub const SUGGESTION_ROWS: usize = 12;

/// The header of the panel: what the first suggestion completes.
pub open spec fn suggestion_header(list: Seq<EditSuggestion>) -> Seq<char> {
    if list.len() == 0 {
        "Suggestions"@
    } else {
        match list[0].kind {
            EditSuggestionKind::Mnemonic => "Mnemonics  (Tab to insert)"@,
            EditSuggestionKind::Symbol => "Symbols  (Tab to insert)"@,
            EditSuggestionKind::Register => "Registers  (Tab to insert)"@,
        }
    }
}

/// The panel of suggestions for the instruction being edited.
pub fn render_disasm_edit_suggestions(list: &Vec<EditSuggestion>, selected: usize) -> (r:
    SuggestionPanel)
    ensures
        r.header@ == suggestion_header(list@),
        r.rows@.len() == if list@.len() < SUGGESTION_ROWS {
            list@.len() as int
        } else {
            SUGGESTION_ROWS as int
        },
        forall|i: int|
            0 <= i < r.rows@.len() ==> {
                &&& (#[trigger] r.rows@[i]).label@ == list@[i].label@
                &&& r.rows@[i].detail@ == list@[i].detail@
                &&& r.rows@[i].selected == (i == selected)
            },
{
    let header = if list.len() == 0 {
        owned("Suggestions")
    } else {
        match list[0].kind {
            EditSuggestionKind::Mnemonic => owned("Mnemonics  (Tab to insert)"),
            EditSuggestionKind::Symbol => owned("Symbols  (Tab to insert)"),
            EditSuggestionKind::Register => owned("Registers  (Tab to insert)"),
        }
    };
    let mut rows: Vec<SuggestionRow> = Vec::new();
    let mut i: usize = 0;
    while i < list.len() && i < SUGGESTION_ROWS
        invariant
            i <= list@.len(),
            i <= SUGGESTION_ROWS,
            rows@.len() == i,
            forall|k: int|
                0 <= k < i ==> {
                    &&& (#[trigger] rows@[k]).label@ == list@[k].label@
                    &&& rows@[k].detail@ == list@[k].detail@
                    &&& rows@[k].selected == (k == selected)
                },
        decreases list@.len() - i,
    {
        rows.push(
            SuggestionRow {
                label: list[i].label.clone(),
                detail: list[i].detail.clone(),
                selected: i == selected,
            },
        );
        i += 1;
    }
    SuggestionPanel { header, rows }
}

// ---- progress --------------------------------------------------------------

/// Steps of injecting and installing.
#[derive(Clone, Copy, Debug, PartialEq, Eq, Structural)]
pub enum InjectionPhase {
    Exporting,
    Signing,
    Installing,
    Done,
}

impl InjectionPhase {
    /// The headline of a step.
    pub open spec fn headline(self) -> Seq<char> {
        match self {
            InjectionPhase::Exporting => "Exporting patched APK…"@,
            InjectionPhase::Signing => "Signing patched APK…"@,
            InjectionPhase::Installing => "Installing on device…"@,
            InjectionPhase::Done => "Done."@,
        }
    }

    /// The headline of a step.
    pub fn label(self) -> (r: &'static str)
        ensures
            r@ == self.headline(),
    {
        match self {
            InjectionPhase::Exporting => "Exporting patched APK…",
            InjectionPhase::Signing => "Signing patched APK…",
            InjectionPhase::Installing => "Installing on device…",
            InjectionPhase::Done => "Done.",
        }
    }
}

/// Where the sliding bar begins at a time, in thousandths of a pixel. It runs
/// from the left end of the track to the right end, 224 pixels away, and back, in
/// 1400 milliseconds.
pub open spec fn chunk_position(now_ms: int) -> int {
    let t = now_ms % 1400;
    if t < 700 {
        320 * t
    } else {
        320 * (1400 - t)
    }
}

/// Where the sliding bar of the export modal begins, in thousandths of a pixel.
pub fn render_export_progress(now_ms: u64) -> (r: u64)
    ensures
        r == chunk_position(now_ms as int),
{
    let t: u64 = now_ms % 1400;
    if t < 700 {
        320 * t
    } else {
        320 * (1400 - t)
    }
}

// ---- laws ------------------------------------------------------------------

/// The bar stays in its track, is back where it was after one period, and stands
/// at the right end halfway.
pub proof fn law_bar_sweeps_the_track(now_ms: int)
    requires
        now_ms >= 0,
    ensures
        0 <= chunk_position(now_ms) <= 224_000,
        chunk_position(now_ms + 1400) == chunk_position(now_ms),
        chunk_position(0) == 0,
        chunk_position(700) == 224_000,
{
}

/// While anything captures typing, neither the palette nor the listing behind it
/// sees Escape, Enter or the arrow keys.
pub proof fn law_edits_shield_what_is_behind(s: Surfaces)
    ensures
        s.disasm_edit || s.hex_edit || s.op_edit ==> closes(s) != CloseRoute::CloseAll && closes(s)
            != CloseRoute::ClearPaletteScope,
        s.disasm_edit || s.hex_edit || s.op_edit ==> activates(s) != ActivateRoute::ActivatePalette
            && activates(s) != ActivateRoute::OpenSelection,
        s.disasm_edit || s.op_edit || s.code_editor || s.palette ==> climbs(s)
            != VerticalRoute::ListingSelection,
        s.disasm_edit || s.hex_edit || s.op_edit || s.palette || s.code_editor ==> sidles(s)
            != HorizontalRoute::HexCursor,
{
}

/// Escape on a scoped palette clears the scope first; only without one does it
/// close the palette.
pub proof fn law_escape_clears_scope_first(s: Surfaces)
    requires
        s.palette,
        closes(s) == CloseRoute::CloseAll || closes(s) == CloseRoute::ClearPaletteScope,
    ensures
        s.palette_scoped ==> closes(s) == CloseRoute::ClearPaletteScope && closes(
            Surfaces { palette_scoped: false, ..s },
        ) == CloseRoute::CloseAll,
        !s.palette_scoped ==> closes(s) == CloseRoute::CloseAll,
{
}

/// Every layer on show appears exactly once, and the order is that of their
/// heights.
#[verifier::rlimit(60)]
pub proof fn law_layers_are_stacked_once(s: Surfaces, o: Overlay)
    ensures
        layers_below(s, layer_count()).contains(o) <==> o.on_show(s),
        layers_below(s, layer_count()).no_duplicates(),
        forall|i: int, j: int|
            0 <= i < j < layers_below(s, layer_count()).len() ==> (#[trigger] layers_below(
                s,
                layer_count(),
            )[i]).height() < (#[trigger] layers_below(s, layer_count())[j]).height(),
{
    lemma_layers(s, layer_count());
    lemma_contains(s, o);
    lemma_rising(layers_below(s, layer_count()));
}

#[verifier::rlimit(60)]
proof fn lemma_contains(s: Surfaces, o: Overlay)
    ensures
        layers_below(s, layer_count()).contains(o) <==> o.on_show(s),
{
    lemma_layers(s, layer_count());
    lemma_height(o);
    let list = layers_below(s, layer_count());
    if o.on_show(s) {
        lemma_layer_on_show(s, layer_count(), o.height());
    }
    if list.contains(o) {
        let i = list.index_of(o);
        assert(list[i] == o);
    }
}

#[verifier::rlimit(60)]
proof fn lemma_rising(list: Seq<Overlay>)
    requires
        forall|i: int, j: int|
            0 <= i < j < list.len() ==> (#[trigger] list[i]).height() < (
            #[trigger] list[j]).height(),
    ensures
        list.no_duplicates(),
{
    assert forall|i: int, j: int| 0 <= i < list.len() && 0 <= j < list.len() && i != j implies list[i]
        != list[j] by {
        if i < j {
            assert(list[i].height() < list[j].height());
        } else {
            assert(list[j].height() < list[i].height());
        }
    }
}

/// Every layer stands at its height.
#[verifier::rlimit(60)]
proof fn lemma_height(o: Overlay)
    ensures
        0 <= o.height() < layer_count(),
        layer_at(o.height()) == o,
{
}

/// Every height has its layer.
proof fn lemma_layer_at(n: int)
    requires
        0 <= n < layer_count(),
    ensures
        layer_at(n).height() == n,
{
}

#[verifier::rlimit(60)]
proof fn lemma_layers(s: Surfaces, n: int)
    requires
        0 <= n <= layer_count(),
    ensures
        forall|i: int|
            0 <= i < layers_below(s, n).len() ==> (#[trigger] layers_below(s, n)[i]).on_show(s)
                && layers_below(s, n)[i].height() < n,
        forall|i: int, j: int|
            0 <= i < j < layers_below(s, n).len() ==> (#[trigger] layers_below(s, n)[i]).height()
                < (#[trigger] layers_below(s, n)[j]).height(),
    decreases n,
{
    if n > 0 {
        lemma_layers(s, n - 1);
        let top = layer_at(n - 1);
        lemma_layer_at(n - 1);
        let shorter = layers_below(s, n - 1);
        let list = layers_below(s, n);
        assert(list == if top.on_show(s) {
            shorter.push(top)
        } else {
            shorter
        });
        assert forall|i: int| 0 <= i < list.len() implies (#[trigger] list[i]).on_show(s)
            && list[i].height() < n by {
            if i < shorter.len() {
                assert(list[i] == shorter[i]);
            }
        }
        assert forall|i: int, j: int| 0 <= i < j < list.len() implies (#[trigger] list[i]).height()
            < (#[trigger] list[j]).height() by {
            assert(list[i] == shorter[i]);
            if j < shorter.len() {
                assert(list[j] == shorter[j]);
            }
        }
    }
}

#[verifier::rlimit(60)]
proof fn lemma_layer_on_show(s: Surfaces, n: int, h: int)
    requires
        0 <= h < n,
        layer_at(h).on_show(s),
    ensures
        layers_below(s, n).contains(layer_at(h)),
    decreases n,
{
    let list = layers_below(s, n);
    let shorter = layers_below(s, n - 1);
    if h == n - 1 {
        assert(list[shorter.len() as int] == layer_at(h));
    } else {
        lemma_layer_on_show(s, n - 1, h);
        let i = shorter.index_of(layer_at(h));
        assert(shorter[i] == layer_at(h));
        assert(list[i] == layer_at(h));
    }
}

} // verus!

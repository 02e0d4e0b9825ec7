//! Shared input decisions: pausing, Escape (close a dialog or leave the
//! level), the controls and settings dialogs, the diagnostics hotkeys, the
//! cursor grab, and which input device's bindings to show.
use vstd::prelude::*;

verus! {

/// What toggling pause does to the pause overlay.
#[derive(Clone, Copy, Debug, PartialEq, Eq, Structural)]
pub enum PauseAction {
    ShowOverlay,
    HideOverlay,
    Nothing,
}

/// `P` or Start flips the pause flag; the overlay follows it.
pub fn toggle_pause(paused: &mut bool, pressed: bool) -> (a: PauseAction)
    ensures
        *final(paused) == (if pressed { !*old(paused) } else { *old(paused) }),
        a == (if !pressed {
            PauseAction::Nothing
        } else if *final(paused) {
            PauseAction::ShowOverlay
        } else {
            PauseAction::HideOverlay
        }),
{
    if pressed {
        *paused = !*paused;
        if *paused {
            PauseAction::ShowOverlay
        } else {
            PauseAction::HideOverlay
        }
    } else {
        PauseAction::Nothing
    }
}

/// What Escape (or the gamepad's Select) does during play.
#[derive(Clone, Copy, Debug, PartialEq, Eq, Structural)]
pub enum EscapeAction {
    Nothing,
    /// Some dialog was open: close every open dialog and stay in the level.
    CloseDialogs,
    /// Leave the level for the menu.
    ToMenu,
}

/// Escape closes open dialogs first and only leaves to the menu when none is
/// open; it does nothing while paused.
pub fn escape_action(paused: bool, pressed: bool, dialogs_open: &[bool]) -> (a: EscapeAction)
    ensures
        a == (if paused || !pressed {
            EscapeAction::Nothing
        } else if exists|i: int| 0 <= i < dialogs_open@.len() && #[trigger] dialogs_open@[i] {
            EscapeAction::CloseDialogs
        } else {
            EscapeAction::ToMenu
        }),
{
    if paused || !pressed {
        return EscapeAction::Nothing;
    }
    let mut i: usize = 0;
    while i < dialogs_open.len()
        invariant
            !paused && pressed,
            i <= dialogs_open@.len(),
            forall|j: int| 0 <= j < i ==> !#[trigger] dialogs_open@[j],
        decreases dialogs_open@.len() - i,
    {
        if dialogs_open[i] {
            assert(dialogs_open@[i as int]);
            return EscapeAction::CloseDialogs;
        }
        i += 1;
    }
    EscapeAction::ToMenu
}

/// Which of the two dialogs (controls, settings) are open.
#[derive(Clone, Copy, Debug, PartialEq, Eq, Structural, Default)]
pub struct DialogState {
    pub agenda_open: bool,
    pub settings_open: bool,
}

/// This frame's dialog inputs.
#[derive(Clone, Copy, Debug, PartialEq, Eq, Structural, Default)]
pub struct DialogInput {
    /// `C` pressed: toggle the controls dialog.
    pub key_c: bool,
    /// `E` pressed: toggle the settings dialog.
    pub key_e: bool,
    /// The settings dialog's Back button was clicked.
    pub settings_close: bool,
    /// The controls dialog's Close button was clicked.
    pub agenda_close: bool,
}

/// `C` toggles the controls dialog and `E` the settings dialog, each judged
/// against the state at the start of the frame; opening one closes the
/// other; the dialogs' own buttons close them. Applied in that order.
pub open spec fn dialog_spec(s: DialogState, i: DialogInput) -> DialogState {
    let (a1, s1) = if i.key_c {
        let show = !s.agenda_open;
        (show, if show { false } else { s.settings_open })
    } else {
        (s.agenda_open, s.settings_open)
    };
    let (a2, s2) = if i.key_e {
        let show = !s.settings_open;
        (if show { false } else { a1 }, show)
    } else {
        (a1, s1)
    };
    let s3 = if i.settings_close { false } else { s2 };
    let a3 = if i.agenda_close { false } else { a2 };
    DialogState { agenda_open: a3, settings_open: s3 }
}

/// One frame of the dialog controls.
pub fn dialog_step(state: DialogState, input: DialogInput) -> (next: DialogState)
    ensures
        next == dialog_spec(state, input),
{
    let agenda_was_open = state.agenda_open;
    let settings_was_open = state.settings_open;
    let mut agenda = state.agenda_open;
    let mut settings = state.settings_open;
    if input.key_c {
        let show = !agenda_was_open;
        agenda = show;
        if show {
            settings = false;
        }
    }
    if input.key_e {
        let show = !settings_was_open;
        settings = show;
        if show {
            agenda = false;
        }
    }
    if input.settings_close {
        settings = false;
    }
    if input.agenda_close {
        agenda = false;
    }
    DialogState { agenda_open: agenda, settings_open: settings }
}

/// At most one dialog is open after any frame that began with at most one
/// open: opening either dialog closes the other.
pub proof fn lemma_dialogs_exclusive(s: DialogState, i: DialogInput)
    requires
        !(s.agenda_open && s.settings_open),
    ensures
        !(dialog_spec(s, i).agenda_open && dialog_spec(s, i).settings_open),
{
}

/// The dialogs' own buttons close them, whatever else was pressed in the
/// same frame.
pub proof fn lemma_close_buttons_close(s: DialogState, i: DialogInput)
    ensures
        i.agenda_close ==> !dialog_spec(s, i).agenda_open,
        i.settings_close ==> !dialog_spec(s, i).settings_open,
{
}

/// With no input nothing changes; `C` alone toggles the controls dialog and
/// `E` alone the settings dialog; opening one closes the other, and closing
/// one leaves the other as it was.
pub proof fn lemma_dialog_keys(s: DialogState)
    ensures
        dialog_spec(s, (DialogInput { key_c: false, key_e: false, settings_close: false, agenda_close: false })) == s,
        ({
            let n = dialog_spec(s, (DialogInput { key_c: true, key_e: false, settings_close: false, agenda_close: false }));
            &&& n.agenda_open == !s.agenda_open
            &&& n.settings_open == (if s.agenda_open { s.settings_open } else { false })
        }),
        ({
            let n = dialog_spec(s, (DialogInput { key_c: false, key_e: true, settings_close: false, agenda_close: false }));
            &&& n.settings_open == !s.settings_open
            &&& n.agenda_open == (if s.settings_open { s.agenda_open } else { false })
        }),
{
}

/// Camera behaviour under test.
#[derive(Clone, Copy, Debug, PartialEq, Eq, Structural, Default)]
pub enum CamDiagMode {
    /// The shipping behaviour.
    #[default]
    Default,
    /// All follow smoothing disabled.
    Rigid,
    /// Extra position smoothing on top.
    ExtraSmooth,
}

impl CamDiagMode {
    /// Label shown in the diagnostics overlay.
    pub fn label(self) -> (s: &'static str)
        ensures
            s@ == (match self {
                CamDiagMode::Default => "default"@,
                CamDiagMode::Rigid => "rigid (F4)"@,
                CamDiagMode::ExtraSmooth => "extra-smooth (F5)"@,
            }),
    {
        match self {
            CamDiagMode::Default => "default",
            CamDiagMode::Rigid => "rigid (F4)",
            CamDiagMode::ExtraSmooth => "extra-smooth (F5)",
        }
    }
}

/// Diagnostics toggles.
#[derive(Clone, Copy, Debug, PartialEq, Eq, Structural, Default)]
pub struct DiagState {
    pub overlay: bool,
    pub cam_mode: CamDiagMode,
}

/// What happens to the frame-time overlay text.
#[derive(Clone, Copy, Debug, PartialEq, Eq, Structural)]
pub enum OverlayAction {
    Spawn,
    Despawn,
    Nothing,
}

/// `F3` toggles the overlay; `F4` / `F5` select the rigid / extra-smooth
/// camera, and pressing the active mode's key again returns to the default.
pub fn diag_hotkeys(
    diag: &mut DiagState,
    f3: bool,
    f4: bool,
    f5: bool,
    overlay_exists: bool,
) -> (a: OverlayAction)
    ensures
        final(diag).overlay == (if f3 { !old(diag).overlay } else { old(diag).overlay }),
        a == (if !f3 {
            OverlayAction::Nothing
        } else if final(diag).overlay {
            if overlay_exists { OverlayAction::Nothing } else { OverlayAction::Spawn }
        } else {
            OverlayAction::Despawn
        }),
        ({
            let m1 = if f4 {
                if old(diag).cam_mode == CamDiagMode::Rigid { CamDiagMode::Default } else { CamDiagMode::Rigid }
            } else {
                old(diag).cam_mode
            };
            final(diag).cam_mode == (if f5 {
                if m1 == CamDiagMode::ExtraSmooth { CamDiagMode::Default } else { CamDiagMode::ExtraSmooth }
            } else {
                m1
            })
        }),
{
    let mut action = OverlayAction::Nothing;
    if f3 {
        diag.overlay = !diag.overlay;
        if diag.overlay && !overlay_exists {
            action = OverlayAction::Spawn;
        } else if !diag.overlay {
            action = OverlayAction::Despawn;
        }
    }
    if f4 {
        diag.cam_mode = if diag.cam_mode == CamDiagMode::Rigid {
            CamDiagMode::Default
        } else {
            CamDiagMode::Rigid
        };
    }
    if f5 {
        diag.cam_mode = if diag.cam_mode == CamDiagMode::ExtraSmooth {
            CamDiagMode::Default
        } else {
            CamDiagMode::ExtraSmooth
        };
    }
    action
}

/// The cursor is grabbed during active play only: not in the menu, not while
/// paused, not while a dialog that needs the cursor is open, and only while
/// the window has focus.
pub fn want_cursor_grab(in_menu: bool, paused: bool, modal_open: bool, focused: bool) -> (b: bool)
    ensures
        b == (!in_menu && !paused && !modal_open && focused),
{
    !in_menu && !paused && !modal_open && focused
}

/// The most recently used device wins: gamepad activity selects the gamepad
/// legend; otherwise keyboard or mouse activity selects the keyboard legend;
/// with neither, the legend stays as it was.
pub fn next_active_input(gamepad_shown: bool, gamepad_active: bool, keyboard_mouse_active: bool) -> (b: bool)
    ensures
        b == (if gamepad_active { true } else if keyboard_mouse_active { false } else { gamepad_shown }),
{
    if gamepad_active {
        true
    } else if keyboard_mouse_active {
        false
    } else {
        gamepad_shown
    }
}

} // verus!

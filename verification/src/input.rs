//! Keyboard and mouse decisions of the viewer: the fly-camera movement keys,
//! cursor capture, keyboard shortcuts, and what a window event leads to.
//!
//! The windowing layer turns its events into the plain values below and
//! carries out the decisions returned here.

use vstd::prelude::*;

verus! {

/// The keys the viewer reacts to; every other key is `Other`.
#[derive(Debug, Clone, Copy, PartialEq, Eq, Structural)]
pub enum Key {
    KeyW,
    KeyS,
    KeyA,
    KeyD,
    Space,
    ShiftLeft,
    F2,
    KeyH,
    KeyR,
    Enter,
    ArrowRight,
    Escape,
    Other,
}

/// Movement keys currently held down.
#[derive(Debug, Clone, Copy, PartialEq, Eq, Structural)]
pub struct CameraInput {
    pub forward: bool,
    pub backward: bool,
    pub left: bool,
    pub right: bool,
    pub up: bool,
    pub down: bool,
}

/// No movement key held.
pub open spec fn no_keys_held() -> CameraInput {
    CameraInput { forward: false, backward: false, left: false, right: false, up: false, down: false }
}

/// The held keys after `key` is pressed (`pressed`) or released.
pub open spec fn spec_process_key(input: CameraInput, key: Key, pressed: bool) -> CameraInput {
    match key {
        Key::KeyW => CameraInput { forward: pressed, ..input },
        Key::KeyS => CameraInput { backward: pressed, ..input },
        Key::KeyA => CameraInput { left: pressed, ..input },
        Key::KeyD => CameraInput { right: pressed, ..input },
        Key::Space => CameraInput { up: pressed, ..input },
        Key::ShiftLeft => CameraInput { down: pressed, ..input },
        _ => input,
    }
}

/// `key` moves the camera.
pub open spec fn is_movement_key(key: Key) -> bool {
    key == Key::KeyW || key == Key::KeyS || key == Key::KeyA || key == Key::KeyD || key
        == Key::Space || key == Key::ShiftLeft
}

/// Direction along one axis: +1, -1, or 0 when both or neither key is held.
pub open spec fn spec_axis(positive: bool, negative: bool) -> int {
    (if positive {
        1int
    } else {
        0int
    }) - (if negative {
        1int
    } else {
        0int
    })
}

impl CameraInput {
    pub fn new() -> (input: Self)
        ensures
            input == no_keys_held(),
    {
        CameraInput {
            forward: false,
            backward: false,
            left: false,
            right: false,
            up: false,
            down: false,
        }
    }

    /// Records a press or release of `key`; returns whether it is a movement key.
    pub fn process_keyboard(&mut self, key: Key, pressed: bool) -> (handled: bool)
        ensures
            *final(self) == spec_process_key(*old(self), key, pressed),
            handled == is_movement_key(key),
    {
        match key {
            Key::KeyW => self.forward = pressed,
            Key::KeyS => self.backward = pressed,
            Key::KeyA => self.left = pressed,
            Key::KeyD => self.right = pressed,
            Key::Space => self.up = pressed,
            Key::ShiftLeft => self.down = pressed,
            _ => return false,
        }
        true
    }

    /// Releases every key.
    pub fn clear(&mut self)
        ensures
            *final(self) == no_keys_held(),
    {
        *self = CameraInput::new();
    }

    /// Direction along one axis from the state of its two keys.
    pub fn axis(positive: bool, negative: bool) -> (a: i8)
        ensures
            a == spec_axis(positive, negative),
    {
        let p: i8 = if positive {
            1
        } else {
            0
        };
        let n: i8 = if negative {
            1
        } else {
            0
        };
        p - n
    }

    /// Requested movement along the camera's forward, right and world-up
    /// axes, each -1, 0 or +1.
    pub fn movement_axes(&self) -> (axes: (i8, i8, i8))
        ensures
            axes.0 == spec_axis(self.forward, self.backward),
            axes.1 == spec_axis(self.right, self.left),
            axes.2 == spec_axis(self.up, self.down),
    {
        (
            CameraInput::axis(self.forward, self.backward),
            CameraInput::axis(self.right, self.left),
            CameraInput::axis(self.up, self.down),
        )
    }
}

/// Cursor capture and held movement keys of the fly camera.  Movement keys
/// only count while the cursor is captured.
pub struct CameraController {
    input: CameraInput,
    captured: bool,
}

impl View for CameraController {
    /// Held keys and capture state.
    type V = (CameraInput, bool);

    closed spec fn view(&self) -> (CameraInput, bool) {
        (self.input, self.captured)
    }
}

impl CameraController {
    #[verifier::type_invariant]
    spec fn released_holds_nothing(self) -> bool {
        !self.captured ==> self.input == no_keys_held()
    }

    pub fn new() -> (c: Self)
        ensures
            c@ == (no_keys_held(), false),
    {
        CameraController { input: CameraInput::new(), captured: false }
    }

    /// Captures or releases the cursor; releasing drops every held key.
    pub fn set_captured(&mut self, captured: bool)
        ensures
            final(self)@.1 == captured,
            final(self)@.0 == if captured {
                old(self)@.0
            } else {
                no_keys_held()
            },
    {
        let input = if captured {
            self.input
        } else {
            CameraInput::new()
        };
        *self = CameraController { input, captured };
    }

    /// Captures or releases the cursor, where capturing holds only if the
    /// window managed to grab the pointer (`grabbed`); a failed grab
    /// releases the cursor again.
    pub fn apply_capture(&mut self, captured: bool, grabbed: bool)
        ensures
            final(self)@.1 == (captured && grabbed),
            final(self)@.0 == if captured && grabbed {
                old(self)@.0
            } else {
                no_keys_held()
            },
    {
        self.set_captured(captured);
        if captured && !grabbed {
            self.set_captured(false);
        }
    }

    pub fn is_captured(&self) -> (b: bool)
        ensures
            b == self@.1,
    {
        self.captured
    }

    /// The held movement keys.
    pub fn input(&self) -> (input: CameraInput)
        ensures
            input == self@.0,
            !self@.1 ==> input == no_keys_held(),
    {
        proof {
            use_type_invariant(self);
        }
        self.input
    }

    /// Feeds a key event to the camera; it is taken only while captured.
    pub fn process_keyboard(&mut self, key: Key, pressed: bool) -> (handled: bool)
        ensures
            final(self)@.1 == old(self)@.1,
            old(self)@.1 ==> final(self)@.0 == spec_process_key(old(self)@.0, key, pressed)
                && handled == is_movement_key(key),
            !old(self)@.1 ==> final(self)@ == old(self)@ && !handled,
    {
        if self.captured {
            let mut input = self.input;
            let handled = input.process_keyboard(key, pressed);
            *self = CameraController { input, captured: true };
            handled
        } else {
            false
        }
    }
}

/// What a keyboard shortcut does.
#[derive(Debug, Clone, Copy, PartialEq, Eq, Structural)]
pub enum Shortcut {
    ToggleDebugText,
    ResetView,
    ResetScene,
    TogglePause,
    /// Advance the paused simulation by one step.
    Step,
    /// The step key while running: taken, but nothing to do.
    Consumed,
    /// Not a shortcut; the event goes on to camera input.
    Unhandled,
}

/// The shortcut a key event triggers.  Shortcuts act on presses only, and not
/// while the GUI has keyboard focus.
pub open spec fn spec_shortcut(gui_wants_keyboard: bool, key: Key, pressed: bool, paused: bool) -> Shortcut {
    if gui_wants_keyboard || !pressed {
        Shortcut::Unhandled
    } else {
        match key {
            Key::F2 => Shortcut::ToggleDebugText,
            Key::KeyH => Shortcut::ResetView,
            Key::KeyR => Shortcut::ResetScene,
            Key::Enter => Shortcut::TogglePause,
            Key::ArrowRight => if paused {
                Shortcut::Step
            } else {
                Shortcut::Consumed
            },
            _ => Shortcut::Unhandled,
        }
    }
}

pub fn shortcut_for_key(gui_wants_keyboard: bool, key: Key, pressed: bool, paused: bool) -> (s: Shortcut)
    ensures
        s == spec_shortcut(gui_wants_keyboard, key, pressed, paused),
{
    if gui_wants_keyboard || !pressed {
        return Shortcut::Unhandled;
    }
    match key {
        Key::F2 => Shortcut::ToggleDebugText,
        Key::KeyH => Shortcut::ResetView,
        Key::KeyR => Shortcut::ResetScene,
        Key::Enter => Shortcut::TogglePause,
        Key::ArrowRight => {
            if paused {
                Shortcut::Step
            } else {
                Shortcut::Consumed
            }
        },
        _ => Shortcut::Unhandled,
    }
}

/// A window event, as far as camera input cares.
#[derive(Debug, Clone, Copy, PartialEq, Eq, Structural)]
pub enum InputEvent {
    Keyboard { key: Key, pressed: bool },
    MouseWheel,
    RightButton { pressed: bool },
    FocusLost,
    Other,
}

/// What camera input does with an event.
#[derive(Debug, Clone, Copy, PartialEq, Eq, Structural)]
pub enum InputAction {
    /// Feed the key to the camera controller.
    CameraKey { key: Key, pressed: bool },
    /// Apply the wheel delta to the camera.
    Scroll,
    /// Capture the cursor.
    Capture,
    /// Release the cursor.
    Release,
    /// Not for the camera.
    Ignore,
}

pub open spec fn spec_input_action(event: InputEvent, captured: bool, gui_wants_mouse: bool) -> InputAction {
    match event {
        InputEvent::Keyboard { key, pressed } => InputAction::CameraKey { key, pressed },
        InputEvent::MouseWheel => if captured || !gui_wants_mouse {
            InputAction::Scroll
        } else {
            InputAction::Ignore
        },
        InputEvent::RightButton { pressed } => if pressed && !gui_wants_mouse {
            InputAction::Capture
        } else if !pressed && captured {
            InputAction::Release
        } else {
            InputAction::Ignore
        },
        InputEvent::FocusLost => InputAction::Release,
        InputEvent::Other => InputAction::Ignore,
    }
}

/// How camera input reacts to `event`: wheel scrolling unless the GUI has the
/// mouse (a captured camera always scrolls), right button capture/release,
/// and release when the window loses focus.
pub fn input_action(event: InputEvent, captured: bool, gui_wants_mouse: bool) -> (a: InputAction)
    ensures
        a == spec_input_action(event, captured, gui_wants_mouse),
{
    match event {
        InputEvent::Keyboard { key, pressed } => InputAction::CameraKey { key, pressed },
        InputEvent::MouseWheel => {
            if captured || !gui_wants_mouse {
                InputAction::Scroll
            } else {
                InputAction::Ignore
            }
        },
        InputEvent::RightButton { pressed } => {
            if pressed && !gui_wants_mouse {
                InputAction::Capture
            } else if !pressed && captured {
                InputAction::Release
            } else {
                InputAction::Ignore
            }
        },
        InputEvent::FocusLost => InputAction::Release,
        InputEvent::Other => InputAction::Ignore,
    }
}

/// A window event, as far as the application loop cares.
#[derive(Debug, Clone, Copy, PartialEq, Eq, Structural)]
pub enum WindowEventKind {
    CloseRequested,
    Keyboard { key: Key, pressed: bool },
    Resized { width: u32, height: u32 },
    RedrawRequested,
    Other,
}

/// What the application loop does with a window event.
#[derive(Debug, Clone, Copy, PartialEq, Eq, Structural)]
pub enum WindowCommand {
    Exit,
    Resize { width: u32, height: u32 },
    Redraw,
    Nothing,
}

pub open spec fn spec_window_command(event: WindowEventKind, consumed: bool) -> WindowCommand {
    if consumed {
        WindowCommand::Nothing
    } else {
        match event {
            WindowEventKind::CloseRequested => WindowCommand::Exit,
            WindowEventKind::Keyboard { key, pressed } => if key == Key::Escape && pressed {
                WindowCommand::Exit
            } else {
                WindowCommand::Nothing
            },
            WindowEventKind::Resized { width, height } => WindowCommand::Resize { width, height },
            WindowEventKind::RedrawRequested => WindowCommand::Redraw,
            WindowEventKind::Other => WindowCommand::Nothing,
        }
    }
}

/// The loop's reaction to an event not already consumed by a shortcut or by
/// camera input: closing or Escape exits, resizes and redraws are forwarded.
pub fn window_command(event: WindowEventKind, consumed: bool) -> (c: WindowCommand)
    ensures
        c == spec_window_command(event, consumed),
{
    if consumed {
        return WindowCommand::Nothing;
    }
    match event {
        WindowEventKind::CloseRequested => WindowCommand::Exit,
        WindowEventKind::Keyboard { key, pressed } => {
            if key == Key::Escape && pressed {
                WindowCommand::Exit
            } else {
                WindowCommand::Nothing
            }
        },
        WindowEventKind::Resized { width, height } => WindowCommand::Resize { width, height },
        WindowEventKind::RedrawRequested => WindowCommand::Redraw,
        WindowEventKind::Other => WindowCommand::Nothing,
    }
}

/// What the application loop does once a requested redraw has run: a frame
/// that failed, for whatever reason, ends the program (after its error is
/// reported); otherwise the loop goes on.
pub fn after_redraw(frame_failed: bool) -> (c: WindowCommand)
    ensures
        c == if frame_failed {
            WindowCommand::Exit
        } else {
            WindowCommand::Nothing
        },
{
    if frame_failed {
        WindowCommand::Exit
    } else {
        WindowCommand::Nothing
    }
}

/// Surface resizes to a zero width or height are ignored.
pub fn accepts_resize(width: u32, height: u32) -> (b: bool)
    ensures
        b == (width > 0 && height > 0),
{
    width > 0 && height > 0
}

/// Law: a press followed by a release of the same key leaves the held keys
/// as they were before the press, provided the key was not held then.
pub proof fn lemma_press_release(input: CameraInput, key: Key)
    requires
        spec_process_key(input, key, false) == input,
    ensures
        spec_process_key(spec_process_key(input, key, true), key, false) == input,
{
}

/// Law: only the single-step key depends on whether the simulation is
/// paused; every other key triggers the same shortcut paused or running.
/// In particular a press of Enter without GUI keyboard focus toggles the
/// pause in both states, so a paused simulation can always be resumed.
pub proof fn lemma_shortcuts_ignore_pause_except_step(
    gui_wants_keyboard: bool,
    key: Key,
    pressed: bool,
)
    ensures
        key != Key::ArrowRight ==> spec_shortcut(gui_wants_keyboard, key, pressed, true)
            == spec_shortcut(gui_wants_keyboard, key, pressed, false),
        spec_shortcut(false, Key::Enter, true, true) == Shortcut::TogglePause,
        spec_shortcut(false, Key::Enter, true, false) == Shortcut::TogglePause,
{
}

/// Law: what each shortcut key does when pressed without GUI keyboard
/// focus: F2 toggles the debug text, H resets the view, R resets the scene,
/// Enter toggles the pause, and the right arrow steps a paused simulation
/// (and is taken without effect while running).  Releases, keys while the
/// GUI has keyboard focus, and all other keys are no shortcut.
pub proof fn lemma_shortcut_keys(gui_wants_keyboard: bool, key: Key, pressed: bool, paused: bool)
    ensures
        spec_shortcut(false, Key::F2, true, paused) == Shortcut::ToggleDebugText,
        spec_shortcut(false, Key::KeyH, true, paused) == Shortcut::ResetView,
        spec_shortcut(false, Key::KeyR, true, paused) == Shortcut::ResetScene,
        spec_shortcut(false, Key::Enter, true, paused) == Shortcut::TogglePause,
        spec_shortcut(false, Key::ArrowRight, true, true) == Shortcut::Step,
        spec_shortcut(false, Key::ArrowRight, true, false) == Shortcut::Consumed,
        gui_wants_keyboard || !pressed ==> spec_shortcut(gui_wants_keyboard, key, pressed, paused)
            == Shortcut::Unhandled,
        spec_shortcut(gui_wants_keyboard, key, pressed, paused) != Shortcut::Unhandled ==> {
            &&& !gui_wants_keyboard
            &&& pressed
            &&& (key == Key::F2 || key == Key::KeyH || key == Key::KeyR || key == Key::Enter
                || key == Key::ArrowRight)
        },
        spec_shortcut(gui_wants_keyboard, key, pressed, paused) == Shortcut::Step ==> paused,
{
}

/// Law: the viewer exits only on a close request or a press of Escape that
/// no shortcut or camera input took; every other key press or release, and
/// every consumed event, leaves it running.
pub proof fn lemma_only_close_or_escape_exits(event: WindowEventKind, consumed: bool)
    ensures
        spec_window_command(event, consumed) == WindowCommand::Exit ==> !consumed && (event
            == WindowEventKind::CloseRequested || event == (WindowEventKind::Keyboard {
            key: Key::Escape,
            pressed: true,
        })),
        !consumed && event == WindowEventKind::CloseRequested ==> spec_window_command(
            event,
            consumed,
        ) == WindowCommand::Exit,
        !consumed && event == (WindowEventKind::Keyboard { key: Key::Escape, pressed: true })
            ==> spec_window_command(event, consumed) == WindowCommand::Exit,
        consumed ==> spec_window_command(event, consumed) == WindowCommand::Nothing,
        event matches WindowEventKind::Keyboard { key, pressed } ==> (spec_window_command(
            event,
            consumed,
        ) == WindowCommand::Exit <==> (!consumed && key == Key::Escape && pressed)),
        event matches WindowEventKind::Resized { width, height } ==> spec_window_command(
            event,
            false,
        ) == (WindowCommand::Resize { width, height }),
{
}

/// Law: a keyboard event reaches the camera as it came, the same key and
/// the same press or release, whatever the capture and GUI state; so a
/// release stops the movement its press started.
pub proof fn lemma_keys_reach_the_camera_unchanged(
    key: Key,
    pressed: bool,
    captured: bool,
    gui_wants_mouse: bool,
    input: CameraInput,
)
    ensures
        spec_input_action(InputEvent::Keyboard { key, pressed }, captured, gui_wants_mouse) == (
        InputAction::CameraKey { key, pressed }),
        is_movement_key(key) ==> spec_process_key(
            spec_process_key(
                input,
                key,
                spec_input_action(
                    InputEvent::Keyboard { key, pressed: true },
                    captured,
                    gui_wants_mouse,
                )->pressed,
            ),
            key,
            spec_input_action(
                InputEvent::Keyboard { key, pressed: false },
                captured,
                gui_wants_mouse,
            )->pressed,
        ) == spec_process_key(input, key, false),
{
}

} // verus!

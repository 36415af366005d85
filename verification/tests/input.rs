use katara::input::{
    accepts_resize, input_action, shortcut_for_key, window_command, CameraController,
    CameraInput, InputAction, InputEvent, Key, Shortcut, WindowCommand, WindowEventKind,
};

#[test]
fn movement_keys_set_the_axes() {
    let mut input = CameraInput::new();
    assert!(input.process_keyboard(Key::KeyW, true));
    assert!(input.process_keyboard(Key::KeyA, true));
    assert!(input.process_keyboard(Key::Space, true));
    assert_eq!(input.movement_axes(), (1, -1, 1));
    assert!(input.process_keyboard(Key::KeyS, true));
    assert_eq!(input.movement_axes(), (0, -1, 1));
    assert!(input.process_keyboard(Key::KeyW, false));
    assert!(input.process_keyboard(Key::ShiftLeft, true));
    assert_eq!(input.movement_axes(), (-1, -1, 0));
    assert!(!input.process_keyboard(Key::KeyH, true));
    input.clear();
    assert_eq!(input, CameraInput::new());
}

#[test]
fn axis_values() {
    assert_eq!(CameraInput::axis(true, false), 1);
    assert_eq!(CameraInput::axis(false, true), -1);
    assert_eq!(CameraInput::axis(true, true), 0);
    assert_eq!(CameraInput::axis(false, false), 0);
}

#[test]
fn controller_takes_keys_only_while_captured() {
    let mut c = CameraController::new();
    assert!(!c.is_captured());
    assert!(!c.process_keyboard(Key::KeyW, true));
    assert_eq!(c.input(), CameraInput::new());
    c.set_captured(true);
    assert!(c.process_keyboard(Key::KeyD, true));
    assert!(c.input().right);
    c.set_captured(false);
    assert_eq!(c.input(), CameraInput::new());
}

#[test]
fn shortcuts() {
    assert_eq!(shortcut_for_key(false, Key::F2, true, false), Shortcut::ToggleDebugText);
    assert_eq!(shortcut_for_key(false, Key::KeyH, true, false), Shortcut::ResetView);
    assert_eq!(shortcut_for_key(false, Key::KeyR, true, false), Shortcut::ResetScene);
    assert_eq!(shortcut_for_key(false, Key::Enter, true, false), Shortcut::TogglePause);
    assert_eq!(shortcut_for_key(false, Key::ArrowRight, true, true), Shortcut::Step);
    assert_eq!(shortcut_for_key(false, Key::ArrowRight, true, false), Shortcut::Consumed);
    assert_eq!(shortcut_for_key(false, Key::KeyW, true, false), Shortcut::Unhandled);
    assert_eq!(shortcut_for_key(false, Key::F2, false, false), Shortcut::Unhandled);
    assert_eq!(shortcut_for_key(true, Key::F2, true, false), Shortcut::Unhandled);
}

#[test]
fn camera_input_actions() {
    let key = InputEvent::Keyboard { key: Key::KeyW, pressed: true };
    assert_eq!(
        input_action(key, false, true),
        InputAction::CameraKey { key: Key::KeyW, pressed: true }
    );
    assert_eq!(input_action(InputEvent::MouseWheel, false, false), InputAction::Scroll);
    assert_eq!(input_action(InputEvent::MouseWheel, false, true), InputAction::Ignore);
    assert_eq!(input_action(InputEvent::MouseWheel, true, true), InputAction::Scroll);
    assert_eq!(
        input_action(InputEvent::RightButton { pressed: true }, false, false),
        InputAction::Capture
    );
    assert_eq!(
        input_action(InputEvent::RightButton { pressed: true }, false, true),
        InputAction::Ignore
    );
    assert_eq!(
        input_action(InputEvent::RightButton { pressed: false }, true, true),
        InputAction::Release
    );
    assert_eq!(
        input_action(InputEvent::RightButton { pressed: false }, false, false),
        InputAction::Ignore
    );
    assert_eq!(input_action(InputEvent::FocusLost, false, false), InputAction::Release);
    assert_eq!(input_action(InputEvent::Other, true, false), InputAction::Ignore);
}

#[test]
fn window_commands() {
    assert_eq!(window_command(WindowEventKind::CloseRequested, false), WindowCommand::Exit);
    assert_eq!(window_command(WindowEventKind::CloseRequested, true), WindowCommand::Nothing);
    assert_eq!(
        window_command(WindowEventKind::Keyboard { key: Key::Escape, pressed: true }, false),
        WindowCommand::Exit
    );
    assert_eq!(
        window_command(WindowEventKind::Keyboard { key: Key::Escape, pressed: false }, false),
        WindowCommand::Nothing
    );
    assert_eq!(
        window_command(WindowEventKind::Resized { width: 800, height: 600 }, false),
        WindowCommand::Resize { width: 800, height: 600 }
    );
    assert_eq!(window_command(WindowEventKind::RedrawRequested, false), WindowCommand::Redraw);
    assert_eq!(window_command(WindowEventKind::Other, false), WindowCommand::Nothing);
}

#[test]
fn zero_sized_resizes_are_refused() {
    assert!(accepts_resize(1, 1));
    assert!(!accepts_resize(0, 600));
    assert!(!accepts_resize(800, 0));
}

#[test]
fn press_then_release_restores_the_held_keys() {
    for key in [Key::KeyW, Key::KeyS, Key::KeyA, Key::KeyD, Key::Space, Key::ShiftLeft, Key::F2] {
        let mut input = CameraInput::new();
        input.process_keyboard(Key::KeyD, true);
        let before = input;
        if key == Key::KeyD {
            continue;
        }
        input.process_keyboard(key, true);
        input.process_keyboard(key, false);
        assert_eq!(input, before);
    }
}

#[test]
fn failed_grab_leaves_the_cursor_released() {
    let mut c = CameraController::new();
    c.apply_capture(true, false);
    assert!(!c.is_captured());
    c.apply_capture(true, true);
    assert!(c.is_captured());
    assert!(c.process_keyboard(Key::KeyW, true));
    c.apply_capture(false, true);
    assert!(!c.is_captured());
    assert_eq!(c.input(), CameraInput::new());
}

#[test]
fn a_failed_frame_ends_the_loop() {
    assert_eq!(katara::input::after_redraw(true), WindowCommand::Exit);
    assert_eq!(katara::input::after_redraw(false), WindowCommand::Nothing);
}

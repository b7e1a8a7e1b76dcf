use space_rts::keyboard::{Key, KeyBindings, KeyboardState, Tapped};
use space_rts::mouse::MouseButtonState;

#[test]
fn held_keys_follow_last_event() {
    let mut k = KeyboardState::default();
    assert!(!k.handle(Key::Up, true));
    assert!(k.camera_forwards);
    k.handle(Key::Up, false);
    assert!(!k.camera_forwards);
    k.handle(Key::LShift, true);
    k.handle(Key::F, true);
    k.update();
    assert!(k.shift);
    assert!(k.fire);
}

#[test]
fn taps_latch_until_update() {
    let mut k = KeyboardState::new();
    k.handle(Key::S, true);
    k.handle(Key::S, false);
    assert!(k.stop.0);
    k.handle(Key::P, true);
    k.handle(Key::B, true);
    k.handle(Key::N, true);
    k.handle(Key::M, true);
    k.handle(Key::U, true);
    k.handle(Key::A, true);
    k.handle(Key::Escape, true);
    k.handle(Key::L, true);
    k.handle(Key::C, true);
    assert!(k.pause.0 && k.build_fighter.0 && k.build_miner.0 && k.build_carrier.0);
    assert!(k.unload.0 && k.attack_move.0 && k.escape.0 && k.load.0 && k.center_camera.0);
    k.update();
    assert_eq!(k, KeyboardState::new());
}

#[test]
fn fullscreen_toggle_on_press_only() {
    let mut k = KeyboardState::new();
    assert!(k.handle(Key::F11, true));
    assert!(!k.handle(Key::F11, false));
    assert!(!k.handle(Key::Other, true));
    assert_eq!(k, KeyboardState::new());
}

#[test]
fn tapped_handle_and_reset() {
    let mut t = Tapped::default();
    t.handle(false);
    assert!(!t.0);
    t.handle(true);
    t.handle(false);
    assert!(t.0);
    t.reset();
    assert!(!t.0);
}

#[test]
fn default_bindings() {
    let b = KeyBindings::default();
    assert_eq!(b.camera_forwards, Key::Up);
    assert_eq!(b.stop, Key::S);
    assert_eq!(b.toggle_fullscreen, Key::F11);
    assert_eq!(b.build_carrier, Key::M);
}

#[test]
fn camera_movement_axes() {
    let mut k = KeyboardState::new();
    assert_eq!(k.camera_movement(), (0, 0));
    k.handle(Key::Up, true);
    k.handle(Key::Left, true);
    assert_eq!(k.camera_movement(), (1, -1));
    k.handle(Key::Down, true);
    k.handle(Key::Right, true);
    assert_eq!(k.camera_movement(), (0, 0));
    k.handle(Key::Up, false);
    assert_eq!(k.camera_movement(), (-1, 0));
}

type Button = MouseButtonState<f32, (f32, f32)>;

#[test]
fn press_release_is_a_click_for_one_frame() {
    let mut b: Button = MouseButtonState::Up;
    b.handle((3.0, 4.0), true, 0.0);
    assert_eq!(b.time_down(), Some(0.0));
    b.update(false, 0.05);
    assert_eq!(b, MouseButtonState::Down(0.05, (3.0, 4.0)));
    b.handle((9.0, 9.0), false, 0.0);
    assert!(b.was_clicked());
    b.update(false, 0.0);
    assert_eq!(b, MouseButtonState::Up);
    assert!(!b.was_clicked());
}

#[test]
fn long_press_is_a_drag() {
    let mut b: Button = Button::default();
    b.handle((1.0, 2.0), true, 0.0);
    b.update(true, 0.2);
    assert_eq!(b.is_being_dragged(), Some((1.0, 2.0)));
    b.update(true, 0.3);
    assert_eq!(b.is_being_dragged(), Some((1.0, 2.0)));
    b.handle((5.0, 5.0), false, 0.0);
    assert_eq!(b.was_dragged(), Some((1.0, 2.0)));
    assert_eq!(b.is_being_dragged(), None);
    b.update(false, 0.0);
    assert_eq!(b.was_dragged(), None);
    assert_eq!(b, MouseButtonState::Up);
}

#[test]
fn release_while_up_stays_up() {
    let mut b: Button = MouseButtonState::Up;
    b.handle((0.0, 0.0), false, 0.0);
    assert_eq!(b, MouseButtonState::Up);
    assert_eq!(b.time_down(), None);
}

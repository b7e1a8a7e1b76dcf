//! Keyboard state: held keys mirror the last press or release; tapped keys
//! latch a press until the end of the frame, when `update` clears them.
use vstd::prelude::*;

verus! {

/// The keys the game binds, and every other key.
#[derive(Debug, Clone, Copy, PartialEq, Eq, Structural)]
pub enum Key {
    Up,
    Left,
    Down,
    Right,
    C,
    F,
    LShift,
    S,
    P,
    U,
    A,
    Escape,
    L,
    B,
    N,
    M,
    F11,
    Other,
}

/// Which key does what.
#[derive(Debug, Clone, Copy, PartialEq, Eq, Structural)]
pub struct KeyBindings {
    pub camera_forwards: Key,
    pub camera_left: Key,
    pub camera_back: Key,
    pub camera_right: Key,
    pub center_camera: Key,
    pub fire: Key,
    pub shift: Key,
    pub stop: Key,
    pub pause: Key,
    pub unload: Key,
    pub attack_move: Key,
    pub escape: Key,
    pub load: Key,
    pub build_fighter: Key,
    pub build_miner: Key,
    pub build_carrier: Key,
    pub toggle_fullscreen: Key,
}

/// The default bindings.
pub open spec fn spec_default_bindings() -> KeyBindings {
    KeyBindings {
        camera_forwards: Key::Up,
        camera_left: Key::Left,
        camera_back: Key::Down,
        camera_right: Key::Right,
        center_camera: Key::C,
        fire: Key::F,
        shift: Key::LShift,
        stop: Key::S,
        pause: Key::P,
        unload: Key::U,
        attack_move: Key::A,
        escape: Key::Escape,
        load: Key::L,
        build_fighter: Key::B,
        build_miner: Key::N,
        build_carrier: Key::M,
        toggle_fullscreen: Key::F11,
    }
}

impl Default for KeyBindings {
    fn default() -> (b: Self)
        ensures
            b == spec_default_bindings(),
    {
        KeyBindings {
            camera_forwards: Key::Up,
            camera_left: Key::Left,
            camera_back: Key::Down,
            camera_right: Key::Right,
            center_camera: Key::C,
            fire: Key::F,
            shift: Key::LShift,
            stop: Key::S,
            pause: Key::P,
            unload: Key::U,
            attack_move: Key::A,
            escape: Key::Escape,
            load: Key::L,
            build_fighter: Key::B,
            build_miner: Key::N,
            build_carrier: Key::M,
            toggle_fullscreen: Key::F11,
        }
    }
}

/// A key press that stays registered until the state is updated.
#[derive(Debug, Clone, Copy, PartialEq, Eq, Structural)]
pub struct Tapped(pub bool);

impl Tapped {
    pub fn handle(&mut self, pressed: bool)
        ensures
            final(self).0 == (old(self).0 || pressed),
    {
        self.0 = self.0 || pressed;
    }

    pub fn reset(&mut self)
        ensures
            !final(self).0,
    {
        self.0 = false;
    }
}

impl Default for Tapped {
    fn default() -> (t: Self)
        ensures
            !t.0,
    {
        Tapped(false)
    }
}

#[derive(Debug, Clone, Copy, PartialEq, Eq, Structural)]
pub struct KeyboardState {
    pub camera_forwards: bool,
    pub camera_left: bool,
    pub camera_back: bool,
    pub camera_right: bool,
    pub center_camera: Tapped,
    pub fire: bool,
    pub shift: bool,
    pub stop: Tapped,
    pub pause: Tapped,
    pub unload: Tapped,
    pub attack_move: Tapped,
    pub escape: Tapped,
    pub load: Tapped,
    pub build_fighter: Tapped,
    pub build_miner: Tapped,
    pub build_carrier: Tapped,
}

/// A held key: its state is the last press or release.
pub open spec fn held(old_value: bool, bound: Key, key: Key, pressed: bool) -> bool {
    if key == bound {
        pressed
    } else {
        old_value
    }
}

/// A tapped key: a press of the bound key latches it.
pub open spec fn tapped(old_value: Tapped, bound: Key, key: Key, pressed: bool) -> Tapped {
    Tapped(old_value.0 || (key == bound && pressed))
}

/// The state after `key` is pressed or released under bindings `b`.
pub open spec fn handled(s: KeyboardState, b: KeyBindings, key: Key, pressed: bool) -> KeyboardState {
    KeyboardState {
        camera_forwards: held(s.camera_forwards, b.camera_forwards, key, pressed),
        camera_left: held(s.camera_left, b.camera_left, key, pressed),
        camera_back: held(s.camera_back, b.camera_back, key, pressed),
        camera_right: held(s.camera_right, b.camera_right, key, pressed),
        center_camera: tapped(s.center_camera, b.center_camera, key, pressed),
        fire: held(s.fire, b.fire, key, pressed),
        shift: held(s.shift, b.shift, key, pressed),
        stop: tapped(s.stop, b.stop, key, pressed),
        pause: tapped(s.pause, b.pause, key, pressed),
        unload: tapped(s.unload, b.unload, key, pressed),
        attack_move: tapped(s.attack_move, b.attack_move, key, pressed),
        escape: tapped(s.escape, b.escape, key, pressed),
        load: tapped(s.load, b.load, key, pressed),
        build_fighter: tapped(s.build_fighter, b.build_fighter, key, pressed),
        build_miner: tapped(s.build_miner, b.build_miner, key, pressed),
        build_carrier: tapped(s.build_carrier, b.build_carrier, key, pressed),
    }
}

/// The state at the start of a new frame: every tap cleared, held keys kept.
pub open spec fn updated(s: KeyboardState) -> KeyboardState {
    KeyboardState {
        center_camera: Tapped(false),
        stop: Tapped(false),
        pause: Tapped(false),
        unload: Tapped(false),
        attack_move: Tapped(false),
        escape: Tapped(false),
        load: Tapped(false),
        build_fighter: Tapped(false),
        build_miner: Tapped(false),
        build_carrier: Tapped(false),
        ..s
    }
}

/// The new value of a held key after an event.
fn hold(old_value: bool, bound: Key, key: Key, pressed: bool) -> (v: bool)
    ensures
        v == held(old_value, bound, key, pressed),
{
    if key == bound {
        pressed
    } else {
        old_value
    }
}

/// The new value of a tapped key after an event.
fn tap(old_value: Tapped, bound: Key, key: Key, pressed: bool) -> (v: Tapped)
    ensures
        v == tapped(old_value, bound, key, pressed),
{
    let mut t = old_value;
    if key == bound {
        t.handle(pressed);
    }
    t
}

impl KeyboardState {
    pub fn new() -> (s: Self)
        ensures
            !s.camera_forwards && !s.camera_left && !s.camera_back && !s.camera_right,
            !s.fire && !s.shift,
            s == updated(s),
    {
        KeyboardState {
            camera_forwards: false,
            camera_left: false,
            camera_back: false,
            camera_right: false,
            center_camera: Tapped(false),
            fire: false,
            shift: false,
            stop: Tapped(false),
            pause: Tapped(false),
            unload: Tapped(false),
            attack_move: Tapped(false),
            escape: Tapped(false),
            load: Tapped(false),
            build_fighter: Tapped(false),
            build_miner: Tapped(false),
            build_carrier: Tapped(false),
        }
    }

    /// Records a press or release of `key` under the default bindings.
    /// Returns whether the window's fullscreen mode is to be toggled (a press
    /// of the fullscreen key).
    pub fn handle(&mut self, key: Key, pressed: bool) -> (toggle_fullscreen: bool)
        ensures
            *final(self) == handled(*old(self), spec_default_bindings(), key, pressed),
            toggle_fullscreen == (key == Key::F11 && pressed),
    {
        let b = KeyBindings::default();
        let s = *self;
        *self = KeyboardState {
            camera_forwards: hold(s.camera_forwards, b.camera_forwards, key, pressed),
            camera_left: hold(s.camera_left, b.camera_left, key, pressed),
            camera_back: hold(s.camera_back, b.camera_back, key, pressed),
            camera_right: hold(s.camera_right, b.camera_right, key, pressed),
            center_camera: tap(s.center_camera, b.center_camera, key, pressed),
            fire: hold(s.fire, b.fire, key, pressed),
            shift: hold(s.shift, b.shift, key, pressed),
            stop: tap(s.stop, b.stop, key, pressed),
            pause: tap(s.pause, b.pause, key, pressed),
            unload: tap(s.unload, b.unload, key, pressed),
            attack_move: tap(s.attack_move, b.attack_move, key, pressed),
            escape: tap(s.escape, b.escape, key, pressed),
            load: tap(s.load, b.load, key, pressed),
            build_fighter: tap(s.build_fighter, b.build_fighter, key, pressed),
            build_miner: tap(s.build_miner, b.build_miner, key, pressed),
            build_carrier: tap(s.build_carrier, b.build_carrier, key, pressed),
        };
        key == b.toggle_fullscreen && pressed
    }

    /// Clears every tap at the end of a frame.
    pub fn update(&mut self)
        ensures
            *final(self) == updated(*old(self)),
            final(self).camera_forwards == old(self).camera_forwards,
            final(self).camera_left == old(self).camera_left,
            final(self).camera_back == old(self).camera_back,
            final(self).camera_right == old(self).camera_right,
            final(self).fire == old(self).fire,
            final(self).shift == old(self).shift,
    {
        self.center_camera.reset();
        self.stop.reset();
        self.pause.reset();
        self.unload.reset();
        self.escape.reset();
        self.attack_move.reset();
        self.load.reset();
        self.build_fighter.reset();
        self.build_miner.reset();
        self.build_carrier.reset();
    }

    /// The camera's movement from the held arrow keys: forwards minus back,
    /// and right minus left, each -1, 0 or 1.
    pub fn camera_movement(&self) -> (m: (i8, i8))
        ensures
            m.0 == (if self.camera_forwards {
                1int
            } else {
                0
            }) - (if self.camera_back {
                1int
            } else {
                0
            }),
            m.1 == (if self.camera_right {
                1int
            } else {
                0
            }) - (if self.camera_left {
                1int
            } else {
                0
            }),
    {
        let forwards: i8 = if self.camera_forwards {
            1
        } else {
            0
        };
        let back: i8 = if self.camera_back {
            1
        } else {
            0
        };
        let right: i8 = if self.camera_right {
            1
        } else {
            0
        };
        let left: i8 = if self.camera_left {
            1
        } else {
            0
        };
        (forwards - back, right - left)
    }
}

impl Default for KeyboardState {
    fn default() -> (s: Self)
        ensures
            !s.camera_forwards && !s.camera_left && !s.camera_back && !s.camera_right,
            !s.fire && !s.shift,
            s == updated(s),
    {
        KeyboardState::new()
    }
}

/// A tap latches: once a press is registered, later releases do not clear it
/// within the frame; only `update` does.
pub proof fn law_tap_latches(s: KeyboardState, b: KeyBindings, later: Key)
    ensures
        handled(handled(s, b, b.stop, true), b, later, false).stop.0,
        !updated(handled(handled(s, b, b.stop, true), b, later, false)).stop.0,
{
}

/// A held key follows its last event: a press then a release of the fire
/// key leaves it released, whatever it was before.
pub proof fn law_held_follows_last_event(s: KeyboardState, b: KeyBindings)
    ensures
        handled(s, b, b.fire, true).fire,
        !handled(handled(s, b, b.fire, true), b, b.fire, false).fire,
{
}

/// The end-of-frame update keeps every held key as it was and clears every
/// tap.
pub proof fn law_update_keeps_held_clears_taps(s: KeyboardState)
    ensures
        updated(s).camera_forwards == s.camera_forwards,
        updated(s).camera_left == s.camera_left,
        updated(s).camera_back == s.camera_back,
        updated(s).camera_right == s.camera_right,
        updated(s).fire == s.fire,
        updated(s).shift == s.shift,
        !updated(s).center_camera.0,
        !updated(s).stop.0,
        !updated(s).pause.0,
        !updated(s).unload.0,
        !updated(s).attack_move.0,
        !updated(s).escape.0,
        !updated(s).load.0,
        !updated(s).build_fighter.0,
        !updated(s).build_miner.0,
        !updated(s).build_carrier.0,
{
}

/// Updating twice is updating once, and updating keeps the held keys.
pub proof fn law_update_idempotent(s: KeyboardState)
    ensures
        updated(updated(s)) == updated(s),
        updated(s).camera_forwards == s.camera_forwards,
        updated(s).fire == s.fire,
        updated(s).shift == s.shift,
{
}

} // verus!

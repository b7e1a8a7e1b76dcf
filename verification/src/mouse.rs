//! The state machine of one mouse button: a press followed by a release is a
//! click, unless the button was held long enough to become a drag. `P` is a
//! screen position and `T` a duration; the caller measures time and tells
//! `update` whether the drag threshold has been reached.
use vstd::prelude::*;

verus! {

#[derive(Debug, Clone, Copy, PartialEq, Eq)]
pub enum MouseButtonState<T, P> {
    /// Held long enough to drag; holds where the drag started.
    Dragging(P),
    /// A drag ended this frame; holds where it started.
    Dragged(P),
    Up,
    /// A click happened this frame.
    Clicked,
    /// Held for the given time so far, pressed at the given position.
    Down(T, P),
}

/// The state after one frame. `drag` says whether the time held so far has
/// reached the drag threshold; `held_for` is the time held once this frame is
/// counted.
pub open spec fn spec_update<T, P>(s: MouseButtonState<T, P>, drag: bool, held_for: T) -> MouseButtonState<T, P> {
    match s {
        MouseButtonState::Clicked => MouseButtonState::Up,
        MouseButtonState::Down(_, start) => if drag {
            MouseButtonState::Dragging(start)
        } else {
            MouseButtonState::Down(held_for, start)
        },
        MouseButtonState::Dragged(_) => MouseButtonState::Up,
        MouseButtonState::Up => MouseButtonState::Up,
        MouseButtonState::Dragging(start) => MouseButtonState::Dragging(start),
    }
}

/// The state after the button is released.
pub open spec fn spec_release<T, P>(s: MouseButtonState<T, P>) -> MouseButtonState<T, P> {
    match s {
        MouseButtonState::Down(_, _) => MouseButtonState::Clicked,
        MouseButtonState::Dragging(start) => MouseButtonState::Dragged(start),
        _ => MouseButtonState::Up,
    }
}

/// The state after a press or a release at `mouse`.
pub open spec fn spec_handle<T, P>(s: MouseButtonState<T, P>, mouse: P, pressed: bool, zero: T) -> MouseButtonState<T, P> {
    if pressed {
        MouseButtonState::Down(zero, mouse)
    } else {
        spec_release(s)
    }
}

impl<T: Copy, P: Copy> MouseButtonState<T, P> {
    /// Advances the state by one frame.
    pub fn update(&mut self, drag: bool, held_for: T)
        ensures
            *final(self) == spec_update(*old(self), drag, held_for),
            *old(self) is Dragging ==> *final(self) == *old(self),
            *old(self) is Up ==> *final(self) == *old(self),
    {
        match *self {
            MouseButtonState::Clicked => *self = MouseButtonState::Up,
            MouseButtonState::Down(_, start) => {
                if drag {
                    *self = MouseButtonState::Dragging(start)
                } else {
                    *self = MouseButtonState::Down(held_for, start)
                }
            },
            MouseButtonState::Dragged(_) => *self = MouseButtonState::Up,
            MouseButtonState::Up | MouseButtonState::Dragging(_) => {},
        }
    }

    /// Records a press (starting the held time at `zero`) or a release.
    pub fn handle(&mut self, mouse: P, pressed: bool, zero: T)
        ensures
            *final(self) == spec_handle(*old(self), mouse, pressed, zero),
    {
        if pressed {
            self.handle_down(mouse, zero);
        } else {
            self.handle_up();
        }
    }

    fn handle_down(&mut self, mouse: P, zero: T)
        ensures
            *final(self) == MouseButtonState::<T, P>::Down(zero, mouse),
    {
        *self = MouseButtonState::Down(zero, mouse)
    }

    fn handle_up(&mut self)
        ensures
            *final(self) == spec_release(*old(self)),
    {
        match *self {
            MouseButtonState::Down(_, _) => *self = MouseButtonState::Clicked,
            MouseButtonState::Dragging(start) => *self = MouseButtonState::Dragged(start),
            _ => *self = MouseButtonState::Up,
        }
    }

    pub fn was_clicked(&self) -> (b: bool)
        ensures
            b == (*self matches MouseButtonState::Clicked),
    {
        matches!(self, MouseButtonState::Clicked)
    }

    /// Where the current drag started, while the button is being dragged.
    pub fn is_being_dragged(&self) -> (start: Option<P>)
        ensures
            start == (match *self {
                MouseButtonState::Dragging(s) => Some(s),
                _ => None::<P>,
            }),
    {
        if let MouseButtonState::Dragging(start) = self {
            Some(*start)
        } else {
            None
        }
    }

    /// Where the drag that ended this frame started.
    pub fn was_dragged(&self) -> (start: Option<P>)
        ensures
            start == (match *self {
                MouseButtonState::Dragged(s) => Some(s),
                _ => None::<P>,
            }),
    {
        if let MouseButtonState::Dragged(start) = self {
            Some(*start)
        } else {
            None
        }
    }

    /// The time held so far, while the button is down.
    pub fn time_down(&self) -> (t: Option<T>)
        ensures
            t == (match *self {
                MouseButtonState::Down(t, _) => Some(t),
                _ => None::<T>,
            }),
    {
        if let MouseButtonState::Down(t, _) = self {
            Some(*t)
        } else {
            None
        }
    }
}

impl<T, P> Default for MouseButtonState<T, P> {
    fn default() -> (s: Self)
        ensures
            s == MouseButtonState::<T, P>::Up,
    {
        MouseButtonState::Up
    }
}

/// A frame passing changes nothing while the button is up or being dragged:
/// a drag lasts, with its start, until the button is released.
pub proof fn law_update_keeps_drag<T, P>(start: P, drag: bool, held_for: T)
    ensures
        spec_update(MouseButtonState::<T, P>::Dragging(start), drag, held_for)
            == MouseButtonState::<T, P>::Dragging(start),
        spec_update(MouseButtonState::<T, P>::Up, drag, held_for) == MouseButtonState::<T, P>::Up,
        spec_release(spec_update(MouseButtonState::<T, P>::Dragging(start), drag, held_for))
            == MouseButtonState::<T, P>::Dragged(start),
{
}

/// A press and a release before the drag threshold is reached make a click,
/// seen for exactly one frame.
pub proof fn law_press_release_clicks<T, P>(s: MouseButtonState<T, P>, at: P, zero: T, held_for: T)
    ensures
        spec_release(spec_update(spec_handle(s, at, true, zero), false, held_for))
            == MouseButtonState::<T, P>::Clicked,
        spec_update(MouseButtonState::<T, P>::Clicked, false, held_for) == MouseButtonState::<T, P>::Up,
{
}

/// Holding past the threshold turns a press into a drag that remembers where
/// it started; the release reports that start for one frame.
pub proof fn law_drag_keeps_start<T, P>(s: MouseButtonState<T, P>, at: P, zero: T, held_for: T, d: bool)
    ensures
        spec_release(spec_update(spec_handle(s, at, true, zero), true, held_for))
            == MouseButtonState::<T, P>::Dragged(at),
        spec_update(MouseButtonState::<T, P>::Dragged(at), d, held_for) == MouseButtonState::<T, P>::Up,
{
}

} // verus!

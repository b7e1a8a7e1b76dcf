//! Decisions of the mouse and keyboard controls: the mouse mode (normal, or
//! placing a move order on a horizontal plane), the order a right click
//! gives, and how clicks change the selection. `F` is a plane height and `P`
//! a point in space; the caller applies the outcome to the selected ships.
use vstd::prelude::*;
use crate::components::{InteractionType, MoveType};

verus! {

#[derive(Debug, Clone, Copy, PartialEq, Eq)]
pub enum MouseMode<F> {
    Normal,
    /// Choosing a destination on the plane at height `plane_y`.
    Movement { plane_y: F, ty: MoveType },
}

/// What the right-clicked entity is, in the order the checks are made.
#[derive(Debug, Clone, Copy, PartialEq, Eq, Structural)]
pub enum TargetKind {
    Enemy,
    Carrier,
    Minable,
    /// None of the above: no order is given.
    Other,
}

/// An order for the selected friendly ships.
#[derive(Debug, Clone, Copy, PartialEq, Eq)]
pub enum Order<P> {
    /// For the selected ships able to do `ty`: queue an interaction with the
    /// clicked entity, after their current orders when `keep_queue`, in
    /// place of them otherwise.
    Interact { ty: InteractionType, keep_queue: bool },
    /// For every selected ship: drop its orders and move to `point`.
    MoveTo { point: P, ty: MoveType },
}

/// The interaction a right click on an entity of this kind asks for.
pub open spec fn spec_interaction(kind: TargetKind) -> Option<InteractionType> {
    match kind {
        TargetKind::Enemy => Some(InteractionType::Attack),
        TargetKind::Carrier => Some(InteractionType::BeCarriedBy),
        TargetKind::Minable => Some(InteractionType::Mine),
        TargetKind::Other => None,
    }
}

/// The mouse mode and order after a right click. On an entity: an
/// interaction (if the entity calls for one) and back to normal. On empty
/// space in normal mode: start choosing a destination at the selection's
/// average height, if anything is selected. On empty space while choosing:
/// move there (if the cursor meets the plane) and back to normal.
pub open spec fn spec_right_click<F, P>(
    mode: MouseMode<F>,
    target: Option<TargetKind>,
    shift: bool,
    average_y: Option<F>,
    plane_point: Option<P>,
) -> (MouseMode<F>, Option<Order<P>>) {
    match target {
        Some(kind) => (
            MouseMode::Normal,
            match spec_interaction(kind) {
                Some(ty) => Some(Order::Interact { ty, keep_queue: shift }),
                None => None,
            },
        ),
        None => match mode {
            MouseMode::Normal => (
                match average_y {
                    Some(y) => MouseMode::Movement { plane_y: y, ty: MoveType::Normal },
                    None => MouseMode::Normal,
                },
                None,
            ),
            MouseMode::Movement { ty, .. } => (
                MouseMode::Normal,
                match plane_point {
                    Some(point) => Some(Order::MoveTo { point, ty }),
                    None => None,
                },
            ),
        },
    }
}

/// The mouse mode after the attack-move key: an ongoing move becomes an
/// attack move; otherwise an attack move starts at the selection's average
/// height, if anything is selected.
pub open spec fn spec_attack_move<F>(mode: MouseMode<F>, average_y: Option<F>) -> MouseMode<F> {
    match mode {
        MouseMode::Movement { plane_y, .. } => MouseMode::Movement { plane_y, ty: MoveType::Attack },
        MouseMode::Normal => match average_y {
            Some(y) => MouseMode::Movement { plane_y: y, ty: MoveType::Attack },
            None => MouseMode::Normal,
        },
    }
}

pub fn right_click<F: Copy, P: Copy>(
    mode: MouseMode<F>,
    target: Option<TargetKind>,
    shift: bool,
    average_y: Option<F>,
    plane_point: Option<P>,
) -> (outcome: (MouseMode<F>, Option<Order<P>>))
    ensures
        outcome == spec_right_click(mode, target, shift, average_y, plane_point),
{
    match target {
        Some(kind) => {
            let order = match kind {
                TargetKind::Enemy => Some(Order::Interact { ty: InteractionType::Attack, keep_queue: shift }),
                TargetKind::Carrier => Some(
                    Order::Interact { ty: InteractionType::BeCarriedBy, keep_queue: shift },
                ),
                TargetKind::Minable => Some(Order::Interact { ty: InteractionType::Mine, keep_queue: shift }),
                TargetKind::Other => None,
            };
            (MouseMode::Normal, order)
        },
        None => match mode {
            MouseMode::Normal => {
                let new_mode = match average_y {
                    Some(y) => MouseMode::Movement { plane_y: y, ty: MoveType::Normal },
                    None => MouseMode::Normal,
                };
                (new_mode, None)
            },
            MouseMode::Movement { ty, .. } => {
                let order = match plane_point {
                    Some(point) => Some(Order::MoveTo { point, ty }),
                    None => None,
                };
                (MouseMode::Normal, order)
            },
        },
    }
}

impl<F: Copy> MouseMode<F> {
    /// The attack-move key.
    pub fn attack_move(&mut self, average_y: Option<F>)
        ensures
            *final(self) == spec_attack_move(*old(self), average_y),
    {
        match *self {
            MouseMode::Movement { plane_y, .. } => {
                *self = MouseMode::Movement { plane_y, ty: MoveType::Attack };
            },
            MouseMode::Normal => {
                if let Some(y) = average_y {
                    *self = MouseMode::Movement { plane_y: y, ty: MoveType::Attack };
                }
            },
        }
    }

    /// The escape key: back to normal.
    pub fn escape(&mut self)
        ensures
            *final(self) == MouseMode::<F>::Normal,
    {
        *self = MouseMode::Normal;
    }

    /// A left click while choosing a destination cancels it. Returns whether
    /// the click was used up that way.
    pub fn left_click(&mut self) -> (consumed: bool)
        ensures
            consumed == (*old(self) is Movement),
            *final(self) == MouseMode::<F>::Normal,
    {
        match *self {
            MouseMode::Movement { .. } => {
                *self = MouseMode::Normal;
                true
            },
            MouseMode::Normal => false,
        }
    }

    pub fn is_movement(&self) -> (b: bool)
        ensures
            b == (*self is Movement),
    {
        match *self {
            MouseMode::Movement { .. } => true,
            MouseMode::Normal => false,
        }
    }
}

impl<F> Default for MouseMode<F> {
    fn default() -> (m: Self)
        ensures
            m == MouseMode::<F>::Normal,
    {
        MouseMode::Normal
    }
}

/// A click on a panel button picks the units of the button's model and
/// status: without shift every other unit is deselected, with shift the
/// button's own units are. Returns whether a unit is deselected.
pub fn button_click_deselects(matches_button: bool, shift: bool) -> (deselect: bool)
    ensures
        deselect == (matches_button == shift),
{
    !matches_button ^ shift
}

/// What a left click on the scene does to the selection: without shift the
/// old selection is cleared; the ship under the cursor (given with whether
/// it was selected) is then selected, unless shift is held and it was
/// selected, in which case it is deselected.
pub open spec fn spec_scene_click(shift: bool, under_cursor: Option<bool>) -> (bool, Option<bool>) {
    (
        !shift,
        match under_cursor {
            Some(was_selected) => Some(!(shift && was_selected)),
            None => None,
        },
    )
}

/// Returns whether to clear the selection first, and for the ship under the
/// cursor whether it ends up selected.
pub fn scene_click(shift: bool, under_cursor: Option<bool>) -> (outcome: (bool, Option<bool>))
    ensures
        outcome == spec_scene_click(shift, under_cursor),
        outcome.0 == !shift,
        under_cursor is None ==> outcome.1 is None,
        !shift && under_cursor is Some ==> outcome.1 == Some(true),
{
    let clear = !shift;
    let cursor = match under_cursor {
        Some(was_selected) => {
            if shift && was_selected {
                Some(false)
            } else {
                Some(true)
            }
        },
        None => None,
    };
    (clear, cursor)
}

/// A right click always ends in normal mode, except a click on empty space
/// in normal mode with a selection, which starts choosing a destination; an
/// order to move is given only while choosing one.
pub proof fn law_right_click_ends_in_normal<F, P>(
    mode: MouseMode<F>,
    target: Option<TargetKind>,
    shift: bool,
    average_y: Option<F>,
    plane_point: Option<P>,
)
    ensures
        ({
            let (m, o) = spec_right_click(mode, target, shift, average_y, plane_point);
            &&& (m is Movement) <==> (target is None && mode is Normal && average_y is Some)
            &&& (o matches Some(Order::MoveTo { .. })) ==> (target is None && mode is Movement)
        }),
{
}

/// A click without shift clears the old selection whatever is under the
/// cursor, and one with shift never does; a plain click on a ship always
/// leaves that ship selected, and a click on empty space touches no ship.
pub proof fn law_plain_click_replaces_selection(shift: bool, under_cursor: Option<bool>)
    ensures
        spec_scene_click(shift, under_cursor).0 == !shift,
        under_cursor is None ==> spec_scene_click(shift, under_cursor).1 is None,
        under_cursor is Some ==> spec_scene_click(false, under_cursor).1 == Some(true),
{
}

/// A shift-click on a selected ship undoes a plain click on it: the ship is
/// selected after a click and deselected after a shift-click.
pub proof fn law_shift_click_toggles(was_selected: bool)
    ensures
        spec_scene_click(false, Some(was_selected)).1 == Some(true),
        spec_scene_click(true, Some(true)).1 == Some(false),
        spec_scene_click(true, Some(false)).1 == Some(true),
        !spec_scene_click(true, Some(was_selected)).0,
{
}

} // verus!

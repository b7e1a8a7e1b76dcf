//! Marker components and small value types attached to game entities.
use vstd::prelude::*;

verus! {

/// Marks an explosion, whose scale grows over time.
pub struct Expands;

/// Marks the entities the camera follows.
pub struct CameraFollowing;

/// Marks entities that take orders from the player.
pub struct FollowsCommands;

/// Marks the player's side.
#[derive(Default)]
pub struct Friendly;

/// Marks the opposing side.
#[derive(Default)]
pub struct Enemy;

/// Marks ships that can shoot.
pub struct CanAttack;

/// Marks ships that a carrier can take aboard.
pub struct CanBeCarried;

/// Marks entities the player can select.
pub struct Selectable;

/// Marks ships that can mine asteroids.
pub struct CanMine;

/// Marks entities whose state is printed every frame.
pub struct DebugWatch;

/// Marks a carrier whose hangar is full.
pub struct CarrierFull;

/// Marks a crew member who repairs the ship they are on.
pub struct Engineer;

/// Marks a crew member who does research.
pub struct Researcher;

/// How a ship moves to a point: plainly, or engaging enemies on the way.
#[derive(Debug, Clone, Copy, PartialEq, Eq, Structural)]
pub enum MoveType {
    Normal,
    Attack,
}

/// What a ship does with a target entity.
#[derive(Debug, Clone, Copy, PartialEq, Eq, Structural)]
pub enum InteractionType {
    BeCarriedBy,
    Attack,
    Mine,
}

/// The kinds of crew member.
#[derive(Debug, Clone, Copy, PartialEq, Eq, Structural)]
pub enum PersonEnum {
    Civilian,
    Engineer,
    Researcher,
}

/// The kind of a crew member from their two skill markers: exactly one
/// marker decides it, and none or both make a civilian.
pub open spec fn spec_person(engineer: bool, researcher: bool) -> PersonEnum {
    if engineer && !researcher {
        PersonEnum::Engineer
    } else if !engineer && researcher {
        PersonEnum::Researcher
    } else {
        PersonEnum::Civilian
    }
}

impl PersonEnum {
    pub const COUNT: usize = 3;

    pub fn new(engineer: bool, researcher: bool) -> (p: Self)
        ensures
            p == spec_person(engineer, researcher),
    {
        match (engineer, researcher) {
            (true, false) => PersonEnum::Engineer,
            (false, true) => PersonEnum::Researcher,
            _ => PersonEnum::Civilian,
        }
    }

    /// Every kind, in declaration order.
    pub fn array() -> (a: [PersonEnum; 3])
        ensures
            a@ == seq![PersonEnum::Civilian, PersonEnum::Engineer, PersonEnum::Researcher],
    {
        let a = [PersonEnum::Civilian, PersonEnum::Engineer, PersonEnum::Researcher];
        proof {
            assert(a@ =~= seq![PersonEnum::Civilian, PersonEnum::Engineer, PersonEnum::Researcher]);
        }
        a
    }
}

} // verus!

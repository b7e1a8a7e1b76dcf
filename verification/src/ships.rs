use vstd::prelude::*;

verus! {

/// The kinds of ship a carrier can build.
#[derive(Debug, Clone, Copy, PartialEq, Eq, Structural)]
pub enum ShipType {
    Carrier,
    Fighter,
    Miner,
}

/// Identifies one of the loaded models; the order is the order of the model table.
#[derive(Debug, Clone, Copy, PartialEq, Eq, Structural)]
pub enum ModelId {
    Carrier,
    Fighter,
    Miner,
    Explosion,
    Asteroid,
}

/// Number of models in the model table.
pub const MODEL_COUNT: usize = 5;

/// Position of a model in the model table.
pub open spec fn model_index(id: ModelId) -> nat {
    match id {
        ModelId::Carrier => 0,
        ModelId::Fighter => 1,
        ModelId::Miner => 2,
        ModelId::Explosion => 3,
        ModelId::Asteroid => 4,
    }
}

/// The model drawn for a ship type.
pub open spec fn spec_model_of(ship: ShipType) -> ModelId {
    match ship {
        ShipType::Carrier => ModelId::Carrier,
        ShipType::Fighter => ModelId::Fighter,
        ShipType::Miner => ModelId::Miner,
    }
}

/// Build time of a ship type, counted in half seconds (a carrier takes 30 s,
/// a fighter 5 s and a miner 7.5 s).
pub open spec fn spec_build_time_halves(ship: ShipType) -> nat {
    match ship {
        ShipType::Carrier => 60,
        ShipType::Fighter => 10,
        ShipType::Miner => 15,
    }
}

impl ShipType {
    pub fn model_id(self) -> (id: ModelId)
        ensures
            id == spec_model_of(self),
    {
        match self {
            ShipType::Carrier => ModelId::Carrier,
            ShipType::Fighter => ModelId::Fighter,
            ShipType::Miner => ModelId::Miner,
        }
    }

    /// Build time in half seconds; the build time in seconds is half of it.
    pub fn build_time_halves(self) -> (t: u32)
        ensures
            t == spec_build_time_halves(self),
    {
        match self {
            ShipType::Carrier => 60,
            ShipType::Fighter => 10,
            ShipType::Miner => 15,
        }
    }

    /// Build cost in half units: five times the build time.
    pub fn build_cost_halves(self) -> (c: u32)
        ensures
            c == 5 * spec_build_time_halves(self),
    {
        self.build_time_halves() * 5
    }
}

impl ModelId {
    /// The model's position in the model table.
    pub fn index(self) -> (i: usize)
        ensures
            i == model_index(self),
            i < MODEL_COUNT,
    {
        match self {
            ModelId::Carrier => 0,
            ModelId::Fighter => 1,
            ModelId::Miner => 2,
            ModelId::Explosion => 3,
            ModelId::Asteroid => 4,
        }
    }
}

/// Every model, in table order.
pub fn all_models() -> (models: [ModelId; 5])
    ensures
        forall|i: int| 0 <= i < 5 ==> model_index(#[trigger] models[i]) == i,
{
    [ModelId::Carrier, ModelId::Fighter, ModelId::Miner, ModelId::Explosion, ModelId::Asteroid]
}

} // verus!

//! Selection panel bookkeeping: unit statuses, per-model counts and the list
//! of clickable buttons, one per status and model that has units.
use vstd::prelude::*;
use crate::ships::{ModelId, model_index, MODEL_COUNT};

verus! {

/// Which side a unit is on, as shown in the selection panel.
#[derive(Debug, Clone, Copy, PartialEq, Eq, Structural)]
pub enum UnitStatus {
    Friendly { carried: bool },
    Neutral,
    Enemy,
}

/// The status of a unit from its side markers: exactly one marker decides
/// it, and none or both make it neutral.
pub open spec fn spec_status(friendly: bool, enemy: bool, carried: bool) -> UnitStatus {
    if friendly && !enemy {
        UnitStatus::Friendly { carried }
    } else if !friendly && enemy {
        UnitStatus::Enemy
    } else {
        UnitStatus::Neutral
    }
}

impl UnitStatus {
    /// The label shown for the status.
    pub fn to_str(&self) -> (s: &'static str)
        ensures
            *self == (UnitStatus::Friendly { carried: false }) ==> s@ == "Friendly"@,
            *self == (UnitStatus::Friendly { carried: true }) ==> s@ == "Friendly (being carried)"@,
            *self == UnitStatus::Neutral ==> s@ == "Neutral"@,
            *self == UnitStatus::Enemy ==> s@ == "Enemy"@,
    {
        match self {
            UnitStatus::Friendly { carried: false } => "Friendly",
            UnitStatus::Friendly { carried: true } => "Friendly (being carried)",
            UnitStatus::Neutral => "Neutral",
            UnitStatus::Enemy => "Enemy",
        }
    }

    pub fn from_bools(friendly: bool, enemy: bool, carried: bool) -> (s: Self)
        ensures
            s == spec_status(friendly, enemy, carried),
    {
        match (friendly, enemy) {
            (true, false) => UnitStatus::Friendly { carried },
            (false, true) => UnitStatus::Enemy,
            _ => UnitStatus::Neutral,
        }
    }
}

/// The texture index of an asteroid that has been mined out.
pub struct MiscTextures {
    pub mined_out_asteroid: u32,
}

/// The selection panel's buttons, top to bottom.
#[derive(Default)]
pub struct UnitButtons(pub Vec<(ModelId, UnitStatus)>);

/// The button under the cursor, if any.
#[derive(Default)]
pub struct SelectedButton(pub Option<usize>);

/// Whether the simulation is paused.
pub struct Paused(pub bool);

/// How many entries of `s` have the model at table position `i`.
pub open spec fn model_count(s: Seq<ModelId>, i: nat) -> nat
    decreases s.len(),
{
    if s.len() == 0 {
        0
    } else {
        model_count(s.drop_last(), i) + if model_index(s.last()) == i {
            1nat
        } else {
            0nat
        }
    }
}

/// Counts the units of each model, indexed by table position.
pub fn count(models: &[ModelId]) -> (counts: [u32; 5])
    requires
        models@.len() <= u32::MAX,
    ensures
        forall|i: int| 0 <= i < 5 ==> counts[i] == model_count(models@, i as nat),
        counts[0] == models@.to_multiset().count(ModelId::Carrier),
        counts[1] == models@.to_multiset().count(ModelId::Fighter),
        counts[2] == models@.to_multiset().count(ModelId::Miner),
        counts[3] == models@.to_multiset().count(ModelId::Explosion),
        counts[4] == models@.to_multiset().count(ModelId::Asteroid),
{
    let mut counts: [u32; 5] = [0, 0, 0, 0, 0];
    let mut j: usize = 0;
    while j < models.len()
        invariant
            j <= models@.len(),
            models@.len() <= u32::MAX,
            forall|i: int| 0 <= i < 5 ==> counts[i] == model_count(models@.take(j as int), i as nat),
            forall|i: int| 0 <= i < 5 ==> counts[i] <= j,
        decreases models@.len() - j,
    {
        let index = models[j].index();
        proof {
            assert(models@.take(j + 1).drop_last() =~= models@.take(j as int));
        }
        counts[index] = counts[index] + 1;
        j = j + 1;
    }
    proof {
        assert(models@.take(j as int) =~= models@);
        law_counts_are_occurrences(models@);
    }
    counts
}

/// The buttons for one status: a button per model that has at least one
/// unit, in table order.
pub open spec fn status_buttons(counts: Seq<u32>, status: UnitStatus, n: nat) -> Seq<(ModelId, UnitStatus)>
    decreases n,
{
    if n == 0 {
        seq![]
    } else {
        let before = status_buttons(counts, status, (n - 1) as nat);
        if counts[n - 1] > 0 {
            before.push((model_at(n - 1), status))
        } else {
            before
        }
    }
}

/// The model at a table position.
pub open spec fn model_at(i: int) -> ModelId {
    if i == 0 {
        ModelId::Carrier
    } else if i == 1 {
        ModelId::Fighter
    } else if i == 2 {
        ModelId::Miner
    } else if i == 3 {
        ModelId::Explosion
    } else {
        ModelId::Asteroid
    }
}

impl UnitButtons {
    /// Appends a button for every model that has units with this status.
    pub fn push_status(&mut self, status: UnitStatus, counts: &[u32; 5])
        ensures
            final(self).0@ == old(self).0@ + status_buttons(counts@, status, 5),
    {
        let models = crate::ships::all_models();
        let mut i: usize = 0;
        while i < MODEL_COUNT
            invariant
                i <= 5,
                self.0@ == old(self).0@ + status_buttons(counts@, status, i as nat),
                forall|k: int| 0 <= k < 5 ==> models[k] == model_at(k),
            decreases 5 - i,
        {
            if counts[i] > 0 {
                self.0.push((models[i], status));
            }
            proof {
                assert(self.0@ =~= old(self).0@ + status_buttons(counts@, status, (i + 1) as nat));
            }
            i = i + 1;
        }
    }
}

/// The byte ranges of consecutive text runs of the given lengths, laid end
/// to end from 0.
pub open spec fn run_start(lengths: Seq<usize>, n: nat) -> nat
    decreases n,
{
    if n == 0 {
        0
    } else {
        run_start(lengths, (n - 1) as nat) + lengths[n - 1] as nat
    }
}

proof fn lemma_run_start_monotone(lengths: Seq<usize>, a: nat, b: nat)
    requires
        a <= b <= lengths.len(),
    ensures
        run_start(lengths, a) <= run_start(lengths, b),
    decreases b - a,
{
    if a < b {
        lemma_run_start_monotone(lengths, a, (b - 1) as nat);
    }
}

/// Splits a cached string into its coloured runs: run `i` covers the bytes
/// from the end of run `i - 1` for `lengths[i]` bytes.
pub fn text_runs(lengths: &[usize]) -> (ranges: Vec<(usize, usize)>)
    requires
        run_start(lengths@, lengths@.len()) <= usize::MAX,
    ensures
        ranges@.len() == lengths@.len(),
        forall|i: int|
            0 <= i < lengths@.len() ==> #[trigger] ranges@[i] == (
                run_start(lengths@, i as nat) as usize,
                run_start(lengths@, (i + 1) as nat) as usize,
            ),
{
    let mut ranges: Vec<(usize, usize)> = Vec::new();
    let mut offset: usize = 0;
    let mut i: usize = 0;
    while i < lengths.len()
        invariant
            i <= lengths@.len(),
            run_start(lengths@, lengths@.len()) <= usize::MAX,
            offset == run_start(lengths@, i as nat),
            ranges@.len() == i,
            forall|k: int|
                0 <= k < i ==> #[trigger] ranges@[k] == (
                    run_start(lengths@, k as nat) as usize,
                    run_start(lengths@, (k + 1) as nat) as usize,
                ),
        decreases lengths@.len() - i,
    {
        proof {
            lemma_run_start_monotone(lengths@, (i + 1) as nat, lengths@.len());
        }
        let end = offset + lengths[i];
        ranges.push((offset, end));
        offset = end;
        i = i + 1;
    }
    ranges
}

/// Each model's count is the number of times that model occurs: carriers at
/// table position 0, then fighters, miners, explosions and asteroids.
pub proof fn law_counts_are_occurrences(s: Seq<ModelId>)
    ensures
        model_count(s, 0) == s.to_multiset().count(ModelId::Carrier),
        model_count(s, 1) == s.to_multiset().count(ModelId::Fighter),
        model_count(s, 2) == s.to_multiset().count(ModelId::Miner),
        model_count(s, 3) == s.to_multiset().count(ModelId::Explosion),
        model_count(s, 4) == s.to_multiset().count(ModelId::Asteroid),
    decreases s.len(),
{
    broadcast use vstd::multiset::group_multiset_axioms;

    if s.len() == 0 {
        s.to_multiset_ensures();
        assert(forall|m: ModelId| !s.contains(m));
    } else {
        law_counts_are_occurrences(s.drop_last());
        assert(s =~= s.drop_last().push(s.last()));
        vstd::seq_lib::to_multiset_build(s.drop_last(), s.last());
    }
}

/// Every unit is counted under exactly one model: the five counts add up to
/// the number of units.
pub proof fn law_counts_add_up(s: Seq<ModelId>)
    ensures
        model_count(s, 0) + model_count(s, 1) + model_count(s, 2) + model_count(s, 3) + model_count(s, 4)
            == s.len(),
    decreases s.len(),
{
    if s.len() > 0 {
        law_counts_add_up(s.drop_last());
    }
}

} // verus!

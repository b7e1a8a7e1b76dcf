//! A carrier's build queue: ships are built one at a time, first queued first
//! built. The clock belongs to the caller: it starts a build timer when
//! `push` reports that the queue was empty or when `advance` hands a ship
//! out and another one is at the front, and it tells `advance` when the
//! timer has run out.
use vstd::prelude::*;
use std::collections::VecDeque;
use crate::ships::{ShipType, spec_build_time_halves};
use crate::carrying::{Carrying, loaded, HANGAR_CAPACITY};

verus! {

/// Sum of the build times, in half seconds, of a sequence of ships.
pub open spec fn total_build_halves(s: Seq<ShipType>) -> nat
    decreases s.len(),
{
    if s.len() == 0 {
        0
    } else {
        spec_build_time_halves(s[0]) + total_build_halves(s.drop_first())
    }
}

proof fn lemma_total_build_halves_push(s: Seq<ShipType>, x: ShipType)
    ensures
        total_build_halves(s.push(x)) == total_build_halves(s) + spec_build_time_halves(x),
    decreases s.len(),
{
    if s.len() > 0 {
        assert(s.push(x).drop_first() =~= s.drop_first().push(x));
        lemma_total_build_halves_push(s.drop_first(), x);
    } else {
        assert(s.push(x).drop_first() =~= Seq::<ShipType>::empty());
        assert(total_build_halves(Seq::<ShipType>::empty()) == 0);
        assert(s.push(x)[0] == x);
    }
}

/// The ships waiting to be built, front first.
pub struct BuildQueue {
    building: VecDeque<ShipType>,
    pub stay_carried: bool,
}

impl View for BuildQueue {
    type V = Seq<ShipType>;

    closed spec fn view(&self) -> Seq<ShipType> {
        self.building@
    }
}

impl BuildQueue {
    /// Whether built ships stay aboard the carrier.
    pub closed spec fn keeps_carried(&self) -> bool {
        self.stay_carried
    }

    pub fn new() -> (q: Self)
        ensures
            q@.len() == 0,
            !q.keeps_carried(),
    {
        BuildQueue { building: VecDeque::new(), stay_carried: false }
    }

    /// Queues a ship at the back. Returns whether the queue was empty, that
    /// is, whether this ship's build starts now.
    pub fn push(&mut self, to_build: ShipType) -> (starts_now: bool)
        ensures
            final(self)@ == old(self)@.push(to_build),
            starts_now == (old(self)@.len() == 0),
            final(self).keeps_carried() == old(self).keeps_carried(),
    {
        let starts_now = self.building.len() == 0;
        self.building.push_back(to_build);
        starts_now
    }

    /// When the front ship's build is done (`due`), takes it off the queue
    /// and returns it; otherwise returns `None` and changes nothing.
    pub fn advance(&mut self, due: bool) -> (built: Option<ShipType>)
        ensures
            built == (if due && old(self)@.len() > 0 {
                Some(old(self)@[0])
            } else {
                None::<ShipType>
            }),
            final(self)@ == (if due && old(self)@.len() > 0 {
                old(self)@.drop_first()
            } else {
                old(self)@
            }),
            final(self).keeps_carried() == old(self).keeps_carried(),
    {
        if self.building.len() > 0 && due {
            self.building.pop_front()
        } else {
            None
        }
    }

    /// The ship being built now, if any.
    pub fn front(&self) -> (f: Option<ShipType>)
        ensures
            f == (if self@.len() > 0 {
                Some(self@[0])
            } else {
                None::<ShipType>
            }),
    {
        if self.building.len() > 0 {
            Some(self.building[0])
        } else {
            None
        }
    }

    /// Build time, in half seconds, of the ships queued behind the one being
    /// built.
    pub fn queued_build_halves(&self) -> (t: u128)
        ensures
            self@.len() > 0 ==> t == total_build_halves(self@.drop_first()),
            self@.len() == 0 ==> t == 0,
    {
        let n = self.building.len();
        let mut sum: u128 = 0;
        let mut i: usize = 1;
        if n == 0 {
            return 0;
        }
        proof {
            assert(self@.subrange(1, 1) =~= Seq::<ShipType>::empty());
        }
        while i < n
            invariant
                n == self@.len(),
                1 <= i <= n,
                sum == total_build_halves(self@.subrange(1, i as int)),
                sum <= 60 * i,
            decreases n - i,
        {
            let halves = self.building[i].build_time_halves();
            proof {
                lemma_total_build_halves_push(self@.subrange(1, i as int), self@[i as int]);
                assert(self@.subrange(1, i as int).push(self@[i as int]) =~= self@.subrange(1, i + 1));
            }
            sum = sum + halves as u128;
            i = i + 1;
        }
        proof {
            assert(self@.subrange(1, n as int) =~= self@.drop_first());
        }
        sum
    }

    pub fn num_in_queue(&self) -> (n: usize)
        ensures
            n == self@.len(),
    {
        self.building.len()
    }
}

impl Default for BuildQueue {
    fn default() -> (q: Self)
        ensures
            q@.len() == 0,
            !q.keeps_carried(),
    {
        BuildQueue::new()
    }
}

/// Decides where a ship the carrier just built goes: when the queue keeps its
/// ships aboard and the ship is not a carrier, it is loaded into the hangar
/// (a fighter with priority) if there is room. Returns whether it went
/// aboard; otherwise the caller launches it.
pub fn stow_built_ship(queue: &BuildQueue, hangar: &mut Carrying, built: ShipType, entity: u64) -> (aboard: bool)
    requires
        old(hangar).wf(),
    ensures
        final(hangar).wf(),
        aboard == (queue.keeps_carried() && built != ShipType::Carrier && old(hangar)@.len()
            < HANGAR_CAPACITY),
        aboard ==> final(hangar)@ == loaded(old(hangar)@, entity, built == ShipType::Fighter),
        !aboard ==> final(hangar)@ == old(hangar)@,
{
    if queue.stay_carried && built != ShipType::Carrier {
        hangar.checked_push(entity, built == ShipType::Fighter)
    } else {
        false
    }
}

/// Ships come out of the queue in the order they went in: pushing a ship and
/// then taking the front off equals taking the front off and then pushing,
/// and a ship pushed onto an empty queue is the next one built.
pub proof fn law_first_in_first_out(q: Seq<ShipType>, ship: ShipType)
    ensures
        q.len() > 0 ==> q.push(ship).drop_first() == q.drop_first().push(ship),
        q.len() > 0 ==> q.push(ship)[0] == q[0],
        q.len() == 0 ==> q.push(ship)[0] == ship && q.push(ship).drop_first().len() == 0,
{
    if q.len() > 0 {
        assert(q.push(ship).drop_first() =~= q.drop_first().push(ship));
    }
}

} // verus!

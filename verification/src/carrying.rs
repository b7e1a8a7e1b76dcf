//! A carrier's hangar: up to 100 carried ships, the ones loaded with priority
//! (fighters) ahead of the others, each group in loading order.
use vstd::prelude::*;
use arrayvec::ArrayVec;

verus! {

#[verifier::external_type_specification]
#[verifier::external_body]
#[verifier::reject_recursive_types(T)]
pub struct ExArrayVec<T, const CAP: usize>(ArrayVec<T, CAP>);

/// How many ships a carrier can hold.
pub const HANGAR_CAPACITY: usize = 100;

/// The entries of a hangar's array, in order: carried entity and priority flag.
pub uninterp spec fn hangar_entries(v: ArrayVec<(u64, bool), 100>) -> Seq<(u64, bool)>;

/// `ArrayVec::new`: an empty array.
#[verifier::external_body]
fn hangar_new() -> (v: ArrayVec<(u64, bool), 100>)
    ensures
        hangar_entries(v).len() == 0,
{
    ArrayVec::new()
}

/// `ArrayVec::len`: the number of entries, never above the capacity.
#[verifier::external_body]
fn hangar_len(v: &ArrayVec<(u64, bool), 100>) -> (n: usize)
    ensures
        n == hangar_entries(*v).len(),
        n <= 100,
{
    v.len()
}

/// `ArrayVec::is_full`: whether the length equals the capacity.
#[verifier::external_body]
fn hangar_is_full(v: &ArrayVec<(u64, bool), 100>) -> (b: bool)
    ensures
        b == (hangar_entries(*v).len() == 100),
{
    v.is_full()
}

/// `ArrayVec::push`: appends an entry; panics when full, which `requires`
/// leaves out.
#[verifier::external_body]
fn hangar_push(v: &mut ArrayVec<(u64, bool), 100>, entry: (u64, bool))
    requires
        hangar_entries(*old(v)).len() < 100,
    ensures
        hangar_entries(*final(v)) == hangar_entries(*old(v)).push(entry),
{
    v.push(entry)
}

/// `ArrayVec::insert`: puts an entry at `index`, shifting the later ones up;
/// panics when full or when `index` is past the end, which `requires` leaves
/// out.
#[verifier::external_body]
fn hangar_insert(v: &mut ArrayVec<(u64, bool), 100>, index: usize, entry: (u64, bool))
    requires
        hangar_entries(*old(v)).len() < 100,
        index <= hangar_entries(*old(v)).len(),
    ensures
        hangar_entries(*final(v)) == hangar_entries(*old(v)).insert(index as int, entry),
{
    v.insert(index, entry)
}

/// `ArrayVec::drain(..)`: takes every entry out, in order.
#[verifier::external_body]
fn hangar_drain(v: &mut ArrayVec<(u64, bool), 100>) -> (taken: Vec<(u64, bool)>)
    ensures
        taken@ == hangar_entries(*old(v)),
        hangar_entries(*final(v)).len() == 0,
{
    v.drain(..).collect()
}

/// `ArrayVec::as_slice`: the entries, in order.
#[verifier::external_body]
fn hangar_slice(v: &ArrayVec<(u64, bool), 100>) -> (s: &[(u64, bool)])
    ensures
        s@ == hangar_entries(*v),
{
    v.as_slice()
}

/// The number of leading priority entries.
pub open spec fn priority_prefix(s: Seq<(u64, bool)>) -> nat
    decreases s.len(),
{
    if s.len() == 0 {
        0
    } else if !s[0].1 {
        0
    } else {
        1 + priority_prefix(s.drop_first())
    }
}

/// No entry without priority stands before an entry with priority.
pub open spec fn priority_first(s: Seq<(u64, bool)>) -> bool {
    forall|i: int, j: int| 0 <= i < j < s.len() && #[trigger] s[j].1 ==> #[trigger] s[i].1
}

/// Where an entry goes: after the entries with priority if it has priority,
/// at the end otherwise.
pub open spec fn loaded(s: Seq<(u64, bool)>, entity: u64, priority: bool) -> Seq<(u64, bool)> {
    if priority {
        s.insert(priority_prefix(s) as int, (entity, true))
    } else {
        s.push((entity, false))
    }
}

proof fn lemma_priority_prefix(s: Seq<(u64, bool)>)
    requires
        priority_first(s),
    ensures
        priority_prefix(s) <= s.len(),
        forall|i: int| 0 <= i < s.len() ==> (s[i].1 <==> i < priority_prefix(s)),
    decreases s.len(),
{
    if s.len() > 0 {
        let t = s.drop_first();
        assert forall|i: int, j: int| 0 <= i < j < t.len() && #[trigger] t[j].1 implies #[trigger] t[i].1 by {
            assert(s[j + 1].1);
        }
        lemma_priority_prefix(t);
        if !s[0].1 {
            assert forall|i: int| 0 <= i < s.len() implies !s[i].1 by {
                if i > 0 && s[i].1 {
                    assert(s[0].1);
                }
            }
        } else {
            assert forall|i: int| 0 <= i < s.len() implies (s[i].1 <==> i < priority_prefix(s)) by {
                if i > 0 {
                    assert(s[i] == t[i - 1]);
                }
            }
        }
    }
}

/// The ships a carrier holds.
pub struct Carrying(ArrayVec<(u64, bool), 100>);

impl View for Carrying {
    type V = Seq<(u64, bool)>;

    closed spec fn view(&self) -> Seq<(u64, bool)> {
        hangar_entries(self.0)
    }
}

impl Carrying {
    /// At most 100 entries, the priority ones first.
    pub open spec fn wf(&self) -> bool {
        &&& self@.len() <= HANGAR_CAPACITY
        &&& priority_first(self@)
    }

    pub fn new() -> (c: Self)
        ensures
            c.wf(),
            c@.len() == 0,
    {
        Carrying(hangar_new())
    }

    /// Loads a ship unless the hangar is full, and says whether it did. A
    /// ship with priority goes after the other ships with priority and ahead
    /// of every ship without; a ship without priority goes last.
    pub fn checked_push(&mut self, entity: u64, priority: bool) -> (pushed: bool)
        requires
            old(self).wf(),
        ensures
            final(self).wf(),
            pushed == (old(self)@.len() < HANGAR_CAPACITY),
            pushed ==> final(self)@ == loaded(old(self)@, entity, priority),
            !pushed ==> final(self)@ == old(self)@,
    {
        if self.is_full() {
            return false;
        }
        let ghost s0 = self@;
        proof {
            lemma_priority_prefix(s0);
        }
        if priority {
            let insert_index = self.partition_point();
            hangar_insert(&mut self.0, insert_index, (entity, priority));
            proof {
                let s1 = self@;
                assert forall|i: int, j: int| 0 <= i < j < s1.len() && #[trigger] s1[j].1 implies #[trigger] s1[i].1 by {
                    if i < insert_index {
                        assert(s1[i] == s0[i]);
                    } else if i > insert_index {
                        assert(s1[i] == s0[i - 1]);
                        assert(s1[j] == s0[j - 1]);
                    }
                }
            }
        } else {
            hangar_push(&mut self.0, (entity, priority));
            proof {
                let s1 = self@;
                assert forall|i: int, j: int| 0 <= i < j < s1.len() && #[trigger] s1[j].1 implies #[trigger] s1[i].1 by {
                    assert(s1[j] == s0[j]);
                    assert(s1[i] == s0[i]);
                }
            }
        }
        true
    }

    /// The number of leading entries with priority, found by bisection.
    fn partition_point(&self) -> (p: usize)
        requires
            self.wf(),
        ensures
            p == priority_prefix(self@),
    {
        let items = hangar_slice(&self.0);
        proof {
            lemma_priority_prefix(self@);
        }
        let mut lo: usize = 0;
        let mut hi: usize = items.len();
        while lo < hi
            invariant
                items@ == self@,
                0 <= lo <= hi <= items@.len(),
                forall|i: int| 0 <= i < lo ==> items@[i].1,
                forall|i: int| hi <= i < items@.len() ==> !items@[i].1,
                forall|i: int| 0 <= i < items@.len() ==> (items@[i].1 <==> i < priority_prefix(self@)),
            decreases hi - lo,
        {
            let mid = lo + (hi - lo) / 2;
            if items[mid].1 {
                lo = mid + 1;
            } else {
                hi = mid;
            }
        }
        proof {
            if lo < priority_prefix(self@) {
                assert(items@[lo as int].1);
            }
            if lo > priority_prefix(self@) {
                assert(!items@[priority_prefix(self@) as int].1);
            }
        }
        lo
    }

    /// The carried entities, in order.
    pub fn iter(&self) -> (entities: Vec<u64>)
        ensures
            entities@ == self@.map_values(|e: (u64, bool)| e.0),
    {
        let items = hangar_slice(&self.0);
        let mut out: Vec<u64> = Vec::new();
        let mut i: usize = 0;
        while i < items.len()
            invariant
                items@ == self@,
                i <= items@.len(),
                out@ == items@.take(i as int).map_values(|e: (u64, bool)| e.0),
            decreases items@.len() - i,
        {
            out.push(items[i].0);
            i = i + 1;
            proof {
                assert(items@.take(i as int).drop_last() =~= items@.take(i - 1));
            }
        }
        proof {
            assert(items@.take(i as int) =~= items@);
        }
        out
    }

    /// Takes every carried entity out, in order, leaving the hangar empty.
    pub fn drain(&mut self) -> (entities: Vec<u64>)
        requires
            old(self).wf(),
        ensures
            final(self).wf(),
            final(self)@.len() == 0,
            entities@ == old(self)@.map_values(|e: (u64, bool)| e.0),
    {
        let taken = hangar_drain(&mut self.0);
        let mut out: Vec<u64> = Vec::new();
        let mut i: usize = 0;
        while i < taken.len()
            invariant
                i <= taken@.len(),
                out@ == taken@.take(i as int).map_values(|e: (u64, bool)| e.0),
            decreases taken@.len() - i,
        {
            out.push(taken[i].0);
            i = i + 1;
            proof {
                assert(taken@.take(i as int).drop_last() =~= taken@.take(i - 1));
            }
        }
        proof {
            assert(taken@.take(i as int) =~= taken@);
        }
        out
    }

    pub fn is_full(&self) -> (b: bool)
        ensures
            b == (self@.len() == HANGAR_CAPACITY),
    {
        hangar_is_full(&self.0)
    }

    pub fn len(&self) -> (n: usize)
        ensures
            n == self@.len(),
    {
        hangar_len(&self.0)
    }

    pub fn capacity(&self) -> (n: usize)
        ensures
            n == HANGAR_CAPACITY,
    {
        HANGAR_CAPACITY
    }

    pub fn is_empty(&self) -> (b: bool)
        ensures
            b == (self@.len() == 0),
    {
        hangar_len(&self.0) == 0
    }
}

impl Default for Carrying {
    fn default() -> (c: Self)
        ensures
            c.wf(),
            c@.len() == 0,
    {
        Carrying::new()
    }
}

/// Loading keeps the priority ships ahead of the others, puts the new ship
/// right after the ships of its own class, and moves nobody else out of order.
pub proof fn law_loading_keeps_priority_first(s: Seq<(u64, bool)>, entity: u64, priority: bool)
    requires
        priority_first(s),
    ensures
        priority_first(loaded(s, entity, priority)),
        loaded(s, entity, priority).len() == s.len() + 1,
        priority ==> loaded(s, entity, priority)[priority_prefix(s) as int] == (entity, true),
        !priority ==> loaded(s, entity, priority).last() == (entity, false),
        loaded(s, entity, priority).remove(
            if priority {
                priority_prefix(s) as int
            } else {
                s.len() as int
            },
        ) == s,
{
    lemma_priority_prefix(s);
    let t = loaded(s, entity, priority);
    let k = priority_prefix(s) as int;
    if priority {
        assert forall|i: int, j: int| 0 <= i < j < t.len() && #[trigger] t[j].1 implies #[trigger] t[i].1 by {
            if i < k {
                assert(t[i] == s[i]);
            } else if i > k {
                assert(t[i] == s[i - 1]);
                assert(t[j] == s[j - 1]);
            }
        }
        assert(t.remove(k) =~= s);
    } else {
        assert forall|i: int, j: int| 0 <= i < j < t.len() && #[trigger] t[j].1 implies #[trigger] t[i].1 by {
            assert(t[j] == s[j]);
            assert(t[i] == s[i]);
        }
        assert(t.remove(s.len() as int) =~= s);
    }
}

} // verus!

//! Fixed-capacity, generation-tagged object arena.
//!
//! Every slot carries a generation counter. A [`SlotId`] names a slot
//! index together with the generation it was allocated under; freeing a
//! slot advances its generation, so a handle that outlived its object
//! never resolves again (until the 32-bit counter wraps around).

use vstd::prelude::*;

verus! {

/// Largest capacity an arena may have: slot indices are 16-bit.
pub const MAX_ARENA_CAPACITY: usize = 0x1_0000;

/// A slot index paired with the generation it was allocated under.
#[derive(Copy, Clone, Debug, PartialEq, Eq, Structural)]
pub struct SlotId {
    index: u16,
    generation: u32,
}

impl SlotId {
    /// The slot index.
    pub closed spec fn spec_index(self) -> u16 {
        self.index
    }

    /// The generation tag.
    pub closed spec fn spec_generation(self) -> u32 {
        self.generation
    }

    /// Build a slot id from its raw parts.
    pub fn from_parts(index: u16, generation: u32) -> (r: Self)
        ensures
            r.spec_index() == index,
            r.spec_generation() == generation,
    {
        SlotId { index, generation }
    }

    /// The slot index.
    pub fn index(self) -> (r: u16)
        ensures
            r == self.spec_index(),
    {
        self.index
    }

    /// The generation tag.
    pub fn generation(self) -> (r: u32)
        ensures
            r == self.spec_generation(),
    {
        self.generation
    }
}

/// The generation a slot moves to when its object is freed.
pub open spec fn next_generation(g: u32) -> u32 {
    if g == u32::MAX { 0 } else { (g + 1) as u32 }
}

/// A fixed-capacity arena of `N` slots holding values of type `T`.
#[verifier::reject_recursive_types(T)]
pub struct Arena<T, const N: usize> {
    slots: Vec<Option<T>>,
    generations: Vec<u32>,
}

impl<T, const N: usize> Arena<T, N> {
    /// Well-formedness: `N` slots, each with a generation.
    pub closed spec fn wf(&self) -> bool {
        &&& self.slots@.len() == N
        &&& self.generations@.len() == N
        &&& N <= MAX_ARENA_CAPACITY
    }

    /// `true` when `id` names a live object.
    pub closed spec fn live(&self, id: SlotId) -> bool {
        &&& (id.index as int) < self.slots@.len()
        &&& (id.index as int) < self.generations@.len()
        &&& self.generations@[id.index as int] == id.generation
        &&& self.slots@[id.index as int].is_some()
    }

    /// The live objects, keyed by their slot ids.
    pub closed spec fn view(&self) -> Map<SlotId, T> {
        Map::new(|id: SlotId| self.live(id), |id: SlotId| self.slots@[id.index as int].unwrap())
    }

    /// The current generation of slot `i`.
    pub closed spec fn slot_generation(&self, i: int) -> u32 {
        self.generations@[i]
    }

    /// `true` when slot `i` holds an object.
    pub closed spec fn occupied(&self, i: int) -> bool {
        self.slots@[i].is_some()
    }

    /// `true` when every slot holds an object.
    pub open spec fn is_full(&self) -> bool {
        forall|i: int| 0 <= i < N ==> #[trigger] self.occupied(i)
    }

    /// The number of occupied slots among the first `k`.
    pub closed spec fn count_occupied(&self, k: int) -> nat
        decreases k,
    {
        if k <= 0 {
            0
        } else {
            self.count_occupied(k - 1) + if self.occupied(k - 1) { 1nat } else { 0nat }
        }
    }

    /// `after` is `self` with `value` stored in the lowest free slot, named
    /// by `id` under that slot's current generation; no other slot
    /// changes.
    pub open spec fn allocated_into(self, after: Self, id: SlotId, value: T) -> bool {
        &&& !self@.contains_key(id)
        &&& (id.spec_index() as int) < N
        &&& !self.occupied(id.spec_index() as int)
        &&& forall|j: int| 0 <= j < id.spec_index() ==> #[trigger] self.occupied(j)
        &&& id.spec_generation() == self.slot_generation(id.spec_index() as int)
        &&& after@ == self@.insert(id, value)
        &&& forall|i: int| 0 <= i < N ==> #[trigger] after.slot_generation(i)
            == self.slot_generation(i)
        &&& forall|i: int| 0 <= i < N && i != id.spec_index() ==>
            #[trigger] after.occupied(i) == self.occupied(i)
        &&& after.occupied(id.spec_index() as int)
    }

    /// `after` is `self` with the object named by `id` removed and its
    /// slot's generation advanced; no other slot changes.
    pub open spec fn freed_from(self, after: Self, id: SlotId) -> bool {
        &&& after@ == self@.remove(id)
        &&& after.slot_generation(id.spec_index() as int) == next_generation(id.spec_generation())
        &&& !after.occupied(id.spec_index() as int)
        &&& forall|i: int| 0 <= i < N && i != id.spec_index() ==> (
            #[trigger] after.slot_generation(i) == self.slot_generation(i)
            && after.occupied(i) == self.occupied(i))
    }

    /// An empty arena: no live objects, every generation zero.
    pub fn new() -> (r: Self)
        requires
            N <= MAX_ARENA_CAPACITY,
        ensures
            r.wf(),
            r@ == Map::<SlotId, T>::empty(),
            forall|i: int| 0 <= i < N ==> !#[trigger] r.occupied(i) && r.slot_generation(i) == 0,
    {
        let mut slots: Vec<Option<T>> = Vec::new();
        let mut generations: Vec<u32> = Vec::new();
        let mut i: usize = 0;
        while i < N
            invariant
                i <= N,
                slots@.len() == i,
                generations@.len() == i,
                forall|j: int| 0 <= j < i ==> (#[trigger] slots@[j]).is_none(),
                forall|j: int| 0 <= j < i ==> #[trigger] generations@[j] == 0,
            decreases N - i,
        {
            slots.push(None);
            generations.push(0);
            i = i + 1;
        }
        let r = Arena { slots, generations };
        assert(r@ =~= Map::<SlotId, T>::empty());
        assert forall|j: int| 0 <= j < N implies !#[trigger] r.occupied(j) && r.slot_generation(j)
            == 0 by {
        }
        r
    }

    /// Store `value` in the first free slot and return its id; `None`
    /// (arena unchanged) when every slot is occupied.
    pub fn allocate(&mut self, value: T) -> (r: Option<SlotId>)
        requires
            old(self).wf(),
        ensures
            final(self).wf(),
            r.is_some() <==> !old(self).is_full(),
            r.is_none() ==> *final(self) == *old(self),
            r matches Some(id) ==> old(self).allocated_into(*final(self), id, value),
            r.is_some() ==> {
                let id = r.unwrap();
                &&& !old(self)@.contains_key(id)
                &&& (id.spec_index() as int) < N
                &&& !old(self).occupied(id.spec_index() as int)
                &&& forall|j: int| 0 <= j < id.spec_index() ==> #[trigger] old(self).occupied(j)
                &&& id.spec_generation() == old(self).slot_generation(id.spec_index() as int)
                &&& final(self)@ == old(self)@.insert(id, value)
                &&& forall|i: int| 0 <= i < N ==> #[trigger] final(self).slot_generation(i)
                    == old(self).slot_generation(i)
                &&& forall|i: int| 0 <= i < N && i != id.spec_index() ==>
                    #[trigger] final(self).occupied(i) == old(self).occupied(i)
                &&& final(self).occupied(id.spec_index() as int)
            },
    {
        let mut i: usize = 0;
        while i < self.slots.len()
            invariant
                self.wf(),
                *self == *old(self),
                i <= self.slots@.len(),
                forall|j: int| 0 <= j < i ==> #[trigger] self.occupied(j),
            decreases self.slots@.len() - i,
        {
            if self.slots[i].is_none() {
                let ghost pre = *self;
                assert(!self.occupied(i as int));
                let id = SlotId { index: i as u16, generation: self.generations[i] };
                self.slots.set(i, Some(value));
                assert(self@ =~= pre@.insert(id, value));
                return Some(id);
            }
            i = i + 1;
        }
        None
    }

    /// Remove and return the object named by `id`; `None` (arena
    /// unchanged) when `id` is stale or was never allocated. Freeing
    /// advances the slot's generation.
    pub fn free(&mut self, id: SlotId) -> (r: Option<T>)
        requires
            old(self).wf(),
        ensures
            final(self).wf(),
            r.is_some() <==> old(self)@.contains_key(id),
            r.is_none() ==> *final(self) == *old(self),
            r.is_some() ==> old(self).freed_from(*final(self), id),
            r.is_some() ==> {
                &&& r.unwrap() == old(self)@[id]
                &&& final(self)@ == old(self)@.remove(id)
                &&& final(self).slot_generation(id.spec_index() as int) == next_generation(
                    id.spec_generation(),
                )
                &&& !final(self).occupied(id.spec_index() as int)
                &&& forall|i: int| 0 <= i < N && i != id.spec_index() ==> (
                    #[trigger] final(self).slot_generation(i) == old(self).slot_generation(i)
                    && final(self).occupied(i) == old(self).occupied(i))
            },
    {
        let i = id.index as usize;
        if i >= self.slots.len() || self.generations[i] != id.generation || self.slots[i].is_none() {
            return None;
        }
        let ghost pre = *self;
        let taken = self.slots[i].take();
        let g = self.generations[i];
        let next = if g == u32::MAX { 0 } else { g + 1 };
        self.generations.set(i, next);
        assert(self@ =~= pre@.remove(id));
        taken
    }

    /// The object named by `id`, or `None` when `id` is stale.
    pub fn get(&self, id: SlotId) -> (r: Option<&T>)
        requires
            self.wf(),
        ensures
            r.is_some() <==> self@.contains_key(id),
            r.is_some() ==> *r.unwrap() == self@[id],
    {
        let i = id.index as usize;
        if i >= self.slots.len() || self.generations[i] != id.generation {
            return None;
        }
        self.slots[i].as_ref()
    }
}

impl<T, const N: usize> Arena<T, N> {
    /// A mutable reference to the object named by `id`, or `None` when
    /// `id` is stale. Writing through the reference changes that object
    /// only.
    pub fn get_mut(&mut self, id: SlotId) -> (r: Option<&mut T>)
        requires
            old(self).wf(),
        ensures
            r.is_some() <==> old(self)@.contains_key(id),
            r.is_none() ==> *final(self) == *old(self),
            r.is_some() ==> *r.unwrap() == old(self)@[id],
            r.is_some() ==> final(self).wf() && final(self)@ == old(self)@.insert(id, *final(r.unwrap())),
            r.is_some() ==> forall|i: int| 0 <= i < N ==> #[trigger] final(self).slot_generation(i)
                == old(self).slot_generation(i) && final(self).occupied(i) == old(self).occupied(i),
    {
        let i = id.index as usize;
        if i >= self.slots.len() || self.generations[i] != id.generation || self.slots[i].is_none() {
            return None;
        }
        self.slots[i].as_mut()
    }

    /// `true` when at least one slot is free.
    pub fn has_free_slot(&self) -> (r: bool)
        requires
            self.wf(),
        ensures
            r == !self.is_full(),
    {
        let mut i: usize = 0;
        while i < self.slots.len()
            invariant
                self.wf(),
                i <= self.slots@.len(),
                forall|j: int| 0 <= j < i ==> #[trigger] self.occupied(j),
            decreases self.slots@.len() - i,
        {
            if self.slots[i].is_none() {
                assert(!self.occupied(i as int));
                return true;
            }
            i = i + 1;
        }
        false
    }

    /// The id of slot `i` under its current generation.
    pub closed spec fn id_at(&self, i: int) -> SlotId {
        SlotId { index: i as u16, generation: self.generations@[i] }
    }

    /// A live id is the id of its own slot under the slot's generation.
    pub proof fn lemma_live_id_is_id_at(&self, id: SlotId)
        requires
            self.wf(),
            self@.contains_key(id),
        ensures
            self.id_at(id.spec_index() as int) == id,
            self.occupied(id.spec_index() as int),
            (id.spec_index() as int) < N,
    {
    }

    /// The object in slot `i` with the id that names it, or `None` when
    /// the slot is empty.
    pub fn get_at(&self, i: usize) -> (r: Option<(SlotId, &T)>)
        requires
            self.wf(),
            i < N,
        ensures
            r.is_some() <==> self.occupied(i as int),
            r.is_some() ==> r.unwrap().0 == self.id_at(i as int) && self@.contains_key(r.unwrap().0)
                && *r.unwrap().1 == self@[r.unwrap().0],
            self.id_at(i as int).spec_index() == i,
            self.occupied(i as int) ==> self@.contains_key(self.id_at(i as int)),
    {
        match self.slots[i].as_ref() {
            Some(v) => Some((SlotId { index: i as u16, generation: self.generations[i] }, v)),
            None => None,
        }
    }
}

/// Once an object is freed its id no longer resolves, and the next
/// object stored in the arena gets a different id (the freed slot's
/// generation moved on).
pub proof fn law_freed_id_is_never_reissued_next<T, const N: usize>(
    before: Arena<T, N>,
    after_free: Arena<T, N>,
    after_alloc: Arena<T, N>,
    id: SlotId,
    new_id: SlotId,
    value: T,
)
    requires
        before.wf(),
        before@.contains_key(id),
        before.freed_from(after_free, id),
        after_free.allocated_into(after_alloc, new_id, value),
    ensures
        !after_free@.contains_key(id),
        !after_alloc@.contains_key(id),
        new_id != id,
{
}

/// Allocation fills slots in index order: when exactly the first `k`
/// slots are occupied, the next allocation takes slot `k`, and after the
/// `N`-th the arena is full.
pub proof fn law_allocation_fills_slots_in_order<T, const N: usize>(
    before: Arena<T, N>,
    after: Arena<T, N>,
    id: SlotId,
    value: T,
    k: int,
)
    requires
        0 <= k < N,
        forall|i: int| 0 <= i < N ==> (#[trigger] before.occupied(i) <==> i < k),
        before.allocated_into(after, id, value),
    ensures
        id.spec_index() == k,
        forall|i: int| 0 <= i < N ==> (#[trigger] after.occupied(i) <==> i < k + 1),
        k + 1 == N ==> after.is_full(),
{
    let idx = id.spec_index() as int;
    assert(!before.occupied(idx));
    if idx > k {
        assert(before.occupied(k));
    }
    assert forall|i: int| 0 <= i < N implies (#[trigger] after.occupied(i) <==> i < k + 1) by {
        if i != idx {
            assert(after.occupied(i) == before.occupied(i));
        }
    }
}

impl<T, const N: usize> Default for Arena<T, N> {
    fn default() -> (r: Self)
        ensures
            N <= MAX_ARENA_CAPACITY ==> r.wf() && r@ == Map::<SlotId, T>::empty(),
            N <= MAX_ARENA_CAPACITY ==> forall|i: int| 0 <= i < N ==> !#[trigger] r.occupied(i)
                && r.slot_generation(i) == 0,
    {
        if N <= MAX_ARENA_CAPACITY {
            Self::new()
        } else {
            Arena { slots: Vec::new(), generations: Vec::new() }
        }
    }
}

} // verus!

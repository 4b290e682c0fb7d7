//! Generational references and a safe arena used by bootstrap linear-type support.
//!
//! Handles carry a slot index plus a monotonically increasing generation. A
//! removed slot increments its generation before it can be reused, so stale
//! handles cannot become valid again. Saturated slots are retired permanently
//! rather than wrapping their generation.

use vstd::prelude::*;
use std::marker::PhantomData;

verus! {

/// A generational reference to a value inside an `Arena<T>`.
#[derive(Debug)]
pub struct GenRef<T> {
    pub gen: u64,
    pub idx: usize,
    pub _marker: PhantomData<T>,
}

impl<T> Clone for GenRef<T> {
    fn clone(&self) -> (r: Self)
        ensures
            r.gen == self.gen,
            r.idx == self.idx,
    {
        GenRef { gen: self.gen, idx: self.idx, _marker: PhantomData }
    }
}

impl<T> Copy for GenRef<T> {}

impl<T> GenRef<T> {
    pub fn new(idx: usize, gen: u64) -> (r: Self)
        ensures
            r.idx == idx,
            r.gen == gen,
    {
        Self { idx, gen, _marker: PhantomData }
    }

    /// The live value this handle designates, if it is still valid.
    ///
    /// An observation only: it reads the slot through the arena's own checks.
    pub fn as_ptr<'a>(&self, arena: &'a Arena<T>) -> (r: Option<&'a T>)
        ensures
            r is Some <==> arena.is_live(*self),
            r matches Some(v) ==> *v == arena.value_at(self.idx as int),
    {
        arena.get(*self)
    }
}

struct ArenaSlot<T> {
    value: Option<Box<T>>,
    gen: u64,
}

/// A safe generational arena.
///
/// Values themselves live in `Box<T>`, so growth of the slot vector never
/// moves a live value.
pub struct Arena<T> {
    slots: Vec<ArenaSlot<T>>,
}

impl<T> Arena<T> {
    /// The number of slots ever created.
    pub closed spec fn slot_count(&self) -> nat {
        self.slots@.len()
    }

    /// Whether slot `i` currently holds a value.
    pub closed spec fn occupied(&self, i: int) -> bool {
        self.slots@[i].value is Some
    }

    /// The value held in slot `i` (meaningful when occupied).
    pub closed spec fn value_at(&self, i: int) -> T {
        *self.slots@[i].value->0
    }

    /// The current generation of slot `i`.
    pub closed spec fn gen_at(&self, i: int) -> u64 {
        self.slots@[i].gen
    }

    /// Whether handle `r` designates a live value.
    pub open spec fn is_live(&self, r: GenRef<T>) -> bool {
        &&& r.idx < self.slot_count()
        &&& self.gen_at(r.idx as int) == r.gen
        &&& self.occupied(r.idx as int)
    }

    /// Whether handle `r` is dead for good: its slot has moved to a later
    /// generation, or has been retired at the last generation while empty.
    pub open spec fn is_dead(&self, r: GenRef<T>) -> bool {
        &&& r.idx < self.slot_count()
        &&& (self.gen_at(r.idx as int) > r.gen
            || (self.gen_at(r.idx as int) == u64::MAX && !self.occupied(r.idx as int)))
    }

    /// How every operation relates the arena before and after: no slot is lost,
    /// no generation goes back, a retired slot stays empty, and every dead
    /// handle stays dead.
    pub open spec fn evolves_to(&self, next: &Self) -> bool {
        &&& next.slot_count() >= self.slot_count()
        &&& forall|i: int| 0 <= i < self.slot_count() ==> #[trigger] next.gen_at(i) >= self.gen_at(i)
        &&& forall|i: int| 0 <= i < self.slot_count() && self.gen_at(i) == u64::MAX && !self.occupied(i)
            ==> next.gen_at(i) == u64::MAX && !#[trigger] next.occupied(i)
    }

    /// Index of the first reusable slot at or after `from`: empty and not retired.
    pub open spec fn reusable(&self, i: int) -> bool {
        !self.occupied(i) && self.gen_at(i) < u64::MAX
    }

    /// A dead handle is never live.
    pub proof fn lemma_dead_not_live(&self, r: GenRef<T>)
        requires
            self.is_dead(r),
        ensures
            !self.is_live(r),
    {
    }

    /// Stale handles never become valid again: once a handle is dead, it stays
    /// dead (and so never live) through every later allocation, update or removal.
    pub proof fn lemma_dead_stays_dead(&self, next: &Self, r: GenRef<T>)
        requires
            self.evolves_to(next),
            self.is_dead(r),
        ensures
            next.is_dead(r),
            !next.is_live(r),
    {
        assert(next.gen_at(r.idx as int) >= self.gen_at(r.idx as int));
    }

    /// The arena's evolution composes over a sequence of operations.
    pub proof fn lemma_evolves_trans(&self, mid: &Self, last: &Self)
        requires
            self.evolves_to(mid),
            mid.evolves_to(last),
        ensures
            self.evolves_to(last),
    {
        assert forall|i: int| 0 <= i < self.slot_count() implies #[trigger] last.gen_at(i) >= self.gen_at(i) by {
            assert(mid.gen_at(i) >= self.gen_at(i));
            assert(last.gen_at(i) >= mid.gen_at(i));
        }
        assert forall|i: int| 0 <= i < self.slot_count() && self.gen_at(i) == u64::MAX && !self.occupied(i)
            implies last.gen_at(i) == u64::MAX && !#[trigger] last.occupied(i) by {
            assert(mid.gen_at(i) == u64::MAX && !mid.occupied(i));
        }
    }

    pub fn new() -> (a: Self)
        ensures
            a.slot_count() == 0,
            a.live() == 0,
    {
        Self { slots: Vec::new() }
    }

    /// Allocate a value, reusing a retired slot only when its generation can
    /// still distinguish it from every previously issued handle for that slot.
    pub fn allocate(&mut self, value: T) -> (r: GenRef<T>)
        ensures
            old(self).evolves_to(&*final(self)),
            final(self).is_live(r),
            final(self).value_at(r.idx as int) == value,
            // the first reusable slot is taken, else a fresh slot at the end
            r.idx <= old(self).slot_count(),
            forall|i: int| 0 <= i < r.idx ==> !old(self).reusable(i),
            r.idx < old(self).slot_count() ==> old(self).reusable(r.idx as int) && r.gen == old(self).gen_at(r.idx as int),
            r.idx == old(self).slot_count() ==> r.gen == 0 && final(self).slot_count() == old(self).slot_count() + 1,
            r.idx < old(self).slot_count() ==> final(self).slot_count() == old(self).slot_count(),
            final(self).live() == old(self).live() + 1,
            // every other slot is untouched
            forall|i: int| 0 <= i < old(self).slot_count() && i != r.idx ==> {
                &&& #[trigger] final(self).occupied(i) == old(self).occupied(i)
                &&& final(self).gen_at(i) == old(self).gen_at(i)
                &&& final(self).value_at(i) == old(self).value_at(i)
            },
    {
        let mut idx: usize = 0;
        while idx < self.slots.len()
            invariant
                idx <= self.slots@.len(),
                self.slots@ == old(self).slots@,
                forall|i: int| 0 <= i < idx ==> !old(self).reusable(i),
            decreases self.slots.len() - idx,
        {
            if self.slots[idx].value.is_none() && self.slots[idx].gen < u64::MAX {
                let gen = self.slots[idx].gen;
                let ghost before = self.slots@;
                self.slots.set(idx, ArenaSlot { value: Some(Box::new(value)), gen });
                assert(forall|i: int| 0 <= i < before.len() && i != idx ==> self.slots@[i] == before[i]);
                proof {
                    old(self).lemma_live_in_one_change(&*self, before.len() as int, idx as int);
                }
                return GenRef::new(idx, gen);
            }
            idx = idx + 1;
        }
        let idx = self.slots.len();
        self.slots.push(ArenaSlot { value: Some(Box::new(value)), gen: 0 });
        proof {
            assert forall|i: int| 0 <= i < idx implies #[trigger] old(self).occupied(i) == self.occupied(i) by {
                assert(self.slots@[i] == old(self).slots@[i]);
            }
            old(self).lemma_live_in_same(&*self, idx as int);
        }
        GenRef::new(idx, 0)
    }

    pub fn get(&self, r: GenRef<T>) -> (res: Option<&T>)
        ensures
            res is Some <==> self.is_live(r),
            res matches Some(v) ==> *v == self.value_at(r.idx as int),
    {
        if r.idx < self.slots.len() && self.slots[r.idx].gen == r.gen {
            match &self.slots[r.idx].value {
                Some(b) => Some(&**b),
                None => None,
            }
        } else {
            None
        }
    }

    /// Mutable access to the live value designated by `r`.
    pub fn get_mut(&mut self, r: GenRef<T>) -> (res: Option<&mut T>)
        ensures
            res is Some <==> old(self).is_live(r),
            res is None ==> *final(self) == *old(self),
            res is Some ==> {
                &&& *res->0 == old(self).value_at(r.idx as int)
                &&& final(self).slot_count() == old(self).slot_count()
                &&& final(self).live() == old(self).live()
                &&& final(self).value_at(r.idx as int) == *final(res->0)
                &&& forall|i: int| 0 <= i < old(self).slot_count() ==> {
                    &&& #[trigger] final(self).occupied(i) == old(self).occupied(i)
                    &&& final(self).gen_at(i) == old(self).gen_at(i)
                    &&& (i != r.idx ==> final(self).value_at(i) == old(self).value_at(i))
                }
            },
    {
        broadcast use lemma_live_follows_occupancy;
        if r.idx < self.slots.len() && self.slots[r.idx].gen == r.gen && self.slots[r.idx].value.is_some() {
            let slot = &mut self.slots[r.idx];
            match &mut slot.value {
                Some(b) => Some(&mut **b),
                None => None,
            }
        } else {
            None
        }
    }

    /// Remove a live value. The generation advances exactly once at removal,
    /// invalidating every handle previously issued for the slot.
    pub fn remove(&mut self, r: GenRef<T>) -> (ok: bool)
        ensures
            ok == old(self).is_live(r),
            old(self).evolves_to(&*final(self)),
            final(self).slot_count() == old(self).slot_count(),
            ok ==> !final(self).occupied(r.idx as int),
            ok ==> final(self).gen_at(r.idx as int) == (if r.gen == u64::MAX { u64::MAX } else { (r.gen + 1) as u64 }),
            ok ==> final(self).is_dead(r),
            !ok ==> *final(self) == *old(self),
            final(self).live() + (if ok { 1int } else { 0int }) == old(self).live(),
            forall|i: int| 0 <= i < old(self).slot_count() && !(ok && i == r.idx) ==> {
                &&& #[trigger] final(self).occupied(i) == old(self).occupied(i)
                &&& final(self).gen_at(i) == old(self).gen_at(i)
                &&& final(self).value_at(i) == old(self).value_at(i)
            },
    {
        if r.idx >= self.slots.len() {
            return false;
        }
        if self.slots[r.idx].gen != r.gen || self.slots[r.idx].value.is_none() {
            return false;
        }
        let gen = self.slots[r.idx].gen;
        let next_gen = if gen < u64::MAX { gen + 1 } else { gen };
        let ghost before = *self;
        self.slots.set(r.idx, ArenaSlot { value: None, gen: next_gen });
        proof {
            assert forall|i: int| 0 <= i < before.slot_count() && i != r.idx implies
                #[trigger] before.occupied(i) == self.occupied(i) by {
                assert(self.slots@[i] == before.slots@[i]);
            }
            before.lemma_live_in_one_change(&*self, before.slot_count() as int, r.idx as int);
        }
        true
    }

    pub fn is_valid(&self, r: GenRef<T>) -> (b: bool)
        ensures
            b == self.is_live(r),
    {
        self.get(r).is_some()
    }

    /// The number of occupied slots among the first `n`.
    pub closed spec fn live_in(&self, n: int) -> nat
        decreases n,
    {
        if n <= 0 {
            0
        } else if self.occupied(n - 1) {
            self.live_in(n - 1) + 1
        } else {
            self.live_in(n - 1)
        }
    }

    /// The number of live values.
    pub open spec fn live(&self) -> nat {
        self.live_in(self.slot_count() as int)
    }

    /// Two arenas that agree on which of the first `n` slots are occupied
    /// count the same live values among them.
    proof fn lemma_live_in_same(&self, other: &Self, n: int)
        requires
            forall|i: int| 0 <= i < n ==> #[trigger] self.occupied(i) == other.occupied(i),
        ensures
            self.live_in(n) == other.live_in(n),
        decreases n,
    {
        if n > 0 {
            self.lemma_live_in_same(other, n - 1);
        }
    }

    /// Changing the occupancy of one slot `k` among the first `n` changes the
    /// count by exactly that slot's contribution.
    proof fn lemma_live_in_one_change(&self, other: &Self, n: int, k: int)
        requires
            0 <= k < n,
            forall|i: int| 0 <= i < n && i != k ==> #[trigger] self.occupied(i) == other.occupied(i),
        ensures
            other.live_in(n) + (if self.occupied(k) { 1int } else { 0int })
                == self.live_in(n) + (if other.occupied(k) { 1int } else { 0int }),
        decreases n,
    {
        if n - 1 == k {
            self.lemma_live_in_same(other, n - 1);
        } else {
            self.lemma_live_in_one_change(other, n - 1, k);
        }
    }

    proof fn lemma_live_in_bound(&self, n: int)
        requires
            0 <= n,
        ensures
            self.live_in(n) <= n,
        decreases n,
    {
        if n > 0 {
            self.lemma_live_in_bound(n - 1);
        }
    }

    pub fn live_count(&self) -> (c: usize)
        ensures
            c == self.live(),
    {
        let mut c: usize = 0;
        let mut i: usize = 0;
        while i < self.slots.len()
            invariant
                i <= self.slots@.len(),
                c == self.live_in(i as int),
            decreases self.slots.len() - i,
        {
            proof {
                self.lemma_live_in_bound(i as int);
            }
            if self.slots[i].value.is_some() {
                c = c + 1;
            }
            i = i + 1;
        }
        c
    }

    /// A cursor over the live values, in slot order.
    pub fn iter(&self) -> (it: ArenaIter<'_, T>)
        ensures
            it.arena() == self,
            it.position() == 0,
    {
        ArenaIter { arena: self, idx: 0 }
    }
}

impl<T> Default for Arena<T> {
    fn default() -> (a: Self)
        ensures
            a.slot_count() == 0,
            a.live() == 0,
    {
        Self::new()
    }
}

/// A cursor over the live values of an arena, in slot order.
pub struct ArenaIter<'a, T> {
    arena: &'a Arena<T>,
    idx: usize,
}

impl<'a, T> ArenaIter<'a, T> {
    pub closed spec fn arena(&self) -> &'a Arena<T> {
        self.arena
    }

    /// The next slot index to look at.
    pub closed spec fn position(&self) -> nat {
        self.idx as nat
    }

    /// The next live value at or after the cursor, with a handle to it.
    pub fn next(&mut self) -> (r: Option<(GenRef<T>, &'a T)>)
        ensures
            final(self).arena() == old(self).arena(),
            final(self).position() > old(self).position() || r is None,
            forall|i: int| old(self).position() <= i < (if r is Some { final(self).position() - 1 } else { old(self).arena().slot_count() as int })
                ==> !old(self).arena().occupied(i),
            r matches Some(p) ==> {
                &&& p.0.idx == final(self).position() - 1
                &&& old(self).arena().is_live(p.0)
                &&& *p.1 == old(self).arena().value_at(p.0.idx as int)
            },
    {
        while self.idx < self.arena.slots.len()
            invariant
                self.arena == old(self).arena,
                old(self).idx <= self.idx,
                forall|i: int| old(self).idx <= i < self.idx ==> !self.arena.occupied(i),
            decreases self.arena.slots.len() - self.idx,
        {
            let idx = self.idx;
            self.idx = self.idx + 1;
            let slot = &self.arena.slots[idx];
            match &slot.value {
                Some(b) => {
                    return Some((GenRef::new(idx, slot.gen), &**b));
                }
                None => {}
            }
        }
        None
    }
}

/// Arenas with the same slots occupied hold the same number of live values.
pub broadcast proof fn lemma_live_follows_occupancy<T>(a: &Arena<T>, b: &Arena<T>)
    requires
        a.slot_count() == b.slot_count(),
        forall|i: int| 0 <= i < a.slot_count() ==> #[trigger] a.occupied(i) == b.occupied(i),
    ensures
        #![trigger a.live(), b.live()]
        a.live() == b.live(),
{
    a.lemma_live_in_same(b, a.slot_count() as int);
}

} // verus!

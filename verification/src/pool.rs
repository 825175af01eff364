//! A free list of reusable objects.

use vstd::prelude::*;

verus! {

/// The free list after `object` is handed back.
pub open spec fn released<T>(free: Seq<T>, object: T) -> Seq<T> {
    free.push(object)
}

/// The free list after an object is taken: the most recently released one leaves it.
pub open spec fn after_acquire<T>(free: Seq<T>) -> Seq<T> {
    if free.len() == 0 {
        free
    } else {
        free.drop_last()
    }
}

/// Objects that are ready for reuse; `acquire` hands out the most recently released
/// one, or a fresh default object when none is left.
pub struct ObjectPool<T: Default> {
    free: Vec<T>,
}

impl<T: Default> ObjectPool<T> {
    /// The objects waiting in the pool, the next one to be handed out last.
    pub closed spec fn free_objects(&self) -> Seq<T> {
        self.free@
    }

    /// A pool pre-filled with `capacity` default objects.
    pub fn with_capacity(capacity: usize) -> (pool: Self)
        ensures
            pool.free_objects().len() == capacity,
            forall|i: int|
                0 <= i < capacity ==> T::default.ensures((), #[trigger] pool.free_objects()[i]),
    {
        let mut free: Vec<T> = Vec::with_capacity(capacity);
        for i in 0..capacity
            invariant
                free@.len() == i,
                forall|j: int| 0 <= j < i ==> T::default.ensures((), #[trigger] free@[j]),
        {
            free.push(T::default());
        }
        ObjectPool { free }
    }

    /// Takes the most recently released object, or makes a default one when the pool is empty.
    pub fn acquire(&mut self) -> (object: T)
        ensures
            final(self).free_objects() == after_acquire(old(self).free_objects()),
            old(self).free_objects().len() > 0 ==> object == old(self).free_objects().last(),
            old(self).free_objects().len() == 0 ==> T::default.ensures((), object),
    {
        self.free.pop().unwrap_or_default()
    }

    /// Gives an object back for later reuse.
    pub fn release(&mut self, object: T)
        ensures
            final(self).free_objects() == released(old(self).free_objects(), object),
    {
        self.free.push(object);
    }
}

/// Acquiring right after a release gives back the released object and leaves the pool
/// as it was before the release.
pub proof fn lemma_release_then_acquire<T>(free: Seq<T>, object: T)
    ensures
        released(free, object).last() == object,
        after_acquire(released(free, object)) == free,
{
    assert(released(free, object).drop_last() =~= free);
}

} // verus!

//! A minimal entity store: entities are numbered in spawn order and each carries one
//! transform component.

use vstd::prelude::*;
use std::collections::HashMap;

verus! {

/// An entity id; ids are handed out from 1 upwards.
pub type Entity = u32;

/// `HashMap::get_mut` on an entity-keyed map.
///
/// Claims what std documents: the result refers to the value stored under `key` when
/// there is one, writing through it changes only that value, and the map is left as
/// it was when the key is absent.
#[verifier::external_body]
fn entity_slot<'a, T>(map: &'a mut HashMap<Entity, T>, key: Entity) -> (slot: Option<&'a mut T>)
    ensures
        match slot {
            Some(value) => {
                &&& old(map)@.contains_key(key)
                &&& *value == old(map)@[key]
                &&& final(map)@ == old(map)@.insert(key, *final(value))
            },
            None => {
                &&& !old(map)@.contains_key(key)
                &&& final(map)@ == old(map)@
            },
        },
{
    map.get_mut(&key)
}

/// Entities and their transforms.
pub struct World<T> {
    next: Entity,
    transforms: HashMap<Entity, T>,
}

impl<T> World<T> {
    /// The most recently spawned entity (0 before the first spawn).
    pub closed spec fn last_entity(&self) -> Entity {
        self.next
    }

    /// The transform of every live entity.
    pub closed spec fn transforms_view(&self) -> Map<Entity, T> {
        self.transforms@
    }

    /// Every stored entity is one that has been spawned.
    pub closed spec fn wf(&self) -> bool {
        forall|e: Entity| #[trigger] self.transforms@.contains_key(e) ==> 1 <= e <= self.next
    }

    /// An empty world.
    pub fn new() -> (world: Self)
        ensures
            world.wf(),
            world.last_entity() == 0,
            world.transforms_view() == Map::<Entity, T>::empty(),
    {
        World { next: 0, transforms: HashMap::new() }
    }

    /// Adds an entity with the given transform; ids count up from 1.
    pub fn spawn(&mut self, transform: T) -> (entity: Entity)
        requires
            old(self).last_entity() < u32::MAX,
        ensures
            old(self).wf() ==> final(self).wf(),
            old(self).wf() ==> !old(self).transforms_view().contains_key(entity),
            entity == old(self).last_entity() + 1,
            final(self).last_entity() == entity,
            final(self).transforms_view() == old(self).transforms_view().insert(entity, transform),
    {
        broadcast use vstd::std_specs::hash::group_hash_axioms;

        self.next = self.next + 1;
        self.transforms.insert(self.next, transform);
        self.next
    }

    /// The most recently spawned entity (0 before the first spawn); spawning needs it
    /// to be below `u32::MAX`.
    pub fn last_spawned(&self) -> (entity: Entity)
        ensures
            entity == self.last_entity(),
    {
        self.next
    }

    /// The transform of `entity`, if it exists.
    pub fn transform(&self, entity: Entity) -> (found: Option<&T>)
        ensures
            match found {
                Some(t) => self.transforms_view().contains_key(entity) && *t
                    == self.transforms_view()[entity],
                None => !self.transforms_view().contains_key(entity),
            },
    {
        broadcast use vstd::std_specs::hash::group_hash_axioms;

        self.transforms.get(&entity)
    }

    /// Mutable access to the transform of `entity`, if it exists; only that entity's
    /// transform can change through it.
    pub fn transform_mut(&mut self, entity: Entity) -> (found: Option<&mut T>)
        ensures
            final(self).last_entity() == old(self).last_entity(),
            old(self).wf() ==> final(self).wf(),
            match found {
                Some(t) => {
                    &&& old(self).transforms_view().contains_key(entity)
                    &&& *t == old(self).transforms_view()[entity]
                    &&& final(self).transforms_view() == old(self).transforms_view().insert(
                        entity,
                        *final(t),
                    )
                },
                None => {
                    &&& !old(self).transforms_view().contains_key(entity)
                    &&& final(self).transforms_view() == old(self).transforms_view()
                },
            },
    {
        entity_slot(&mut self.transforms, entity)
    }
}

/// A freshly stored transform is what a lookup of that entity finds, and every other
/// entity keeps its transform.
pub proof fn lemma_lookup_after_store<T>(transforms: Map<Entity, T>, entity: Entity, transform: T)
    ensures
        transforms.insert(entity, transform).contains_key(entity),
        transforms.insert(entity, transform)[entity] == transform,
        forall|other: Entity|
            other != entity ==> (#[trigger] transforms.insert(entity, transform).contains_key(other)
                == transforms.contains_key(other)) && (transforms.contains_key(other)
                ==> transforms.insert(entity, transform)[other] == transforms[other]),
{
}

} // verus!

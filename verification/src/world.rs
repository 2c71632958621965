//! The world facade combining the entity table and the resource registry,
//! with no state or invariants of its own beyond forwarding to them.

use vstd::prelude::*;

verus! {

use crate::ecs::{EcsError, Query};
use crate::entity::{EntityRegistry, slot_matches};
use crate::resource::ResourceRegistry;

/// One entity table plus one resource registry, exposed to setup code and to
/// the systems run each tick.
pub struct World<C, R> {
    resource_registry: ResourceRegistry<R>,
    entity_registry: EntityRegistry<C>,
}

impl<C, R> World<C, R> {
    /// The entity table, for phrasing contracts over its columns and slots.
    pub closed spec fn table(self) -> EntityRegistry<C> {
        self.entity_registry
    }

    /// The registered resources, one instance per type key.
    pub closed spec fn resources(self) -> Map<u64, R> {
        self.resource_registry@
    }

    /// Both underlying stores are internally consistent.
    pub closed spec fn wf(self) -> bool {
        self.entity_registry.wf() && self.resource_registry.wf()
    }

    /// An empty world: no slots, no columns, no resources.
    pub fn new() -> (w: Self)
        ensures
            w.wf(),
            w.table().num_slots() == 0,
            w.table().free_list() == Seq::<usize>::empty(),
            forall|k: u64| !(#[trigger] w.table().registered(k)),
            w.resources() == Map::<u64, R>::empty(),
    {
        Self::default()
    }

    /// Stores or replaces the resource instance under `key`.
    pub fn create_resource(&mut self, key: u64, resource: R)
        requires
            old(self).wf(),
        ensures
            final(self).wf(),
            final(self).resources() == old(self).resources().insert(key, resource),
            final(self).table() == old(self).table(),
    {
        self.resource_registry.register(key, resource);
    }

    /// Shared access to the resource under `key`; absence is an explicit
    /// empty answer.
    pub fn get_resource(&self, key: u64) -> (r: Option<&R>)
        requires
            self.wf(),
        ensures
            match r {
                Some(resource) => self.resources().contains_key(key) && *resource
                    == self.resources()[key],
                None => !self.resources().contains_key(key),
            },
    {
        self.resource_registry.get(key)
    }

    /// Exclusive access to the resource under `key`; the world afterwards
    /// holds whatever the caller leaves behind the handle.
    pub fn get_resource_mut(&mut self, key: u64) -> (r: Option<&mut R>)
        requires
            old(self).wf(),
        ensures
            final(self).wf(),
            final(self).table() == old(self).table(),
            match r {
                Some(resource) => {
                    &&& old(self).resources().contains_key(key)
                    &&& *resource == old(self).resources()[key]
                    &&& final(self).resources() == old(self).resources().insert(
                        key,
                        *final(resource),
                    )
                },
                None => !old(self).resources().contains_key(key) && final(self).resources() == old(
                    self,
                ).resources(),
            },
    {
        self.resource_registry.get_mut(key)
    }

    /// Removes the resource under `key`; a later lookup of that key finds
    /// nothing until it is registered anew.
    pub fn delete_resource(&mut self, key: u64) -> (r: Option<R>)
        requires
            old(self).wf(),
        ensures
            final(self).wf(),
            final(self).table() == old(self).table(),
            final(self).resources() == old(self).resources().remove(key),
            match r {
                Some(resource) => old(self).resources().contains_key(key) && resource == old(
                    self,
                ).resources()[key],
                None => !old(self).resources().contains_key(key),
            },
    {
        self.resource_registry.delete(key)
    }

    /// Declares the component column for `key`, backfilled with empty cells
    /// for every already-allocated slot.
    pub fn register_component(&mut self, key: u64)
        requires
            old(self).wf(),
        ensures
            final(self).wf(),
            forall|k: u64|
                #[trigger] final(self).table().registered(k) <==> old(self).table().registered(k)
                    || k == key,
            final(self).table().column(key).len() == final(self).table().num_slots(),
            forall|i: int|
                0 <= i < final(self).table().num_slots() ==> final(self).table().cell(
                    key,
                    i,
                ) is None,
            forall|k: u64|
                k != key && old(self).table().registered(k) ==> final(self).table().column(k)
                    == old(self).table().column(k),
            final(self).table().num_slots() == old(self).table().num_slots(),
            final(self).table().free_list() == old(self).table().free_list(),
            final(self).resources() == old(self).resources(),
    {
        self.entity_registry.register_component(key);
    }

    /// Allocates a slot for a new entity: the oldest freed slot when one is
    /// available (already all-empty), else a fresh slot appended to every
    /// column.
    pub fn create_entity(&mut self) -> (id: usize)
        requires
            old(self).wf(),
            old(self).table().num_slots() < usize::MAX,
        ensures
            final(self).wf(),
            final(self).resources() == old(self).resources(),
            forall|k: u64|
                #[trigger] final(self).table().registered(k) <==> old(self).table().registered(k),
            old(self).table().free_list().len() > 0 ==> {
                &&& id == old(self).table().free_list()[0]
                &&& final(self).table().free_list() == old(self).table().free_list().drop_first()
                &&& final(self).table().num_slots() == old(self).table().num_slots()
                &&& forall|k: u64|
                    old(self).table().registered(k) ==> final(self).table().column(k) == old(
                        self,
                    ).table().column(k)
            },
            old(self).table().free_list().len() == 0 ==> {
                &&& id == old(self).table().num_slots()
                &&& final(self).table().num_slots() == old(self).table().num_slots() + 1
                &&& final(self).table().free_list() == old(self).table().free_list()
                &&& forall|k: u64|
                    old(self).table().registered(k) ==> final(self).table().column(k) == old(
                        self,
                    ).table().column(k).push(None)
            },
            final(self).table().live(id),
            forall|k: u64|
                final(self).table().registered(k) ==> final(self).table().cell(
                    k,
                    id as int,
                ) is None,
    {
        self.entity_registry.create_entity()
    }

    /// Attaches (or updates) the component of type `key` on the live entity
    /// `entity`; an unregistered key is rejected and nothing changes.
    pub fn attach_entity_component(&mut self, entity: usize, key: u64, component: C) -> (r: Result<
        (),
        EcsError,
    >)
        requires
            old(self).wf(),
            old(self).table().live(entity),
        ensures
            final(self).wf(),
            final(self).resources() == old(self).resources(),
            !old(self).table().registered(key) ==> r == Err::<(), EcsError>(
                EcsError::ComponentNotRegistered,
            ) && *final(self) == *old(self),
            old(self).table().registered(key) ==> {
                &&& r == Ok::<(), EcsError>(())
                &&& final(self).table().column(key) == old(self).table().column(key).update(
                    entity as int,
                    Some(component),
                )
                &&& forall|k: u64|
                    k != key && old(self).table().registered(k) ==> final(self).table().column(k)
                        == old(self).table().column(k)
                &&& forall|k: u64|
                    #[trigger] final(self).table().registered(k) <==> old(
                        self,
                    ).table().registered(k)
                &&& final(self).table().num_slots() == old(self).table().num_slots()
                &&& final(self).table().free_list() == old(self).table().free_list()
            },
    {
        self.entity_registry.set_entity_component(entity, key, component)
    }

    /// A shared handle on the component of type `key` held by `entity`.
    pub fn get_entity_component(&self, entity: usize, key: u64) -> (r: Option<&C>)
        requires
            self.wf(),
            entity < self.table().num_slots(),
        ensures
            match r {
                Some(c) => self.table().has_cell(key, entity) && self.table().cell(
                    key,
                    entity as int,
                ) == Some(*c),
                None => !self.table().has_cell(key, entity),
            },
    {
        self.entity_registry.get_entity_component(entity, key)
    }

    /// Clears every column's cell for `entity` and returns its slot to the
    /// free list; freeing an out-of-range or already-free slot is a no-op.
    pub fn free_entity(&mut self, entity: usize)
        requires
            old(self).wf(),
        ensures
            final(self).wf(),
            final(self).resources() == old(self).resources(),
            forall|k: u64|
                #[trigger] final(self).table().registered(k) <==> old(self).table().registered(k),
            final(self).table().num_slots() == old(self).table().num_slots(),
            !old(self).table().live(entity) ==> *final(self) == *old(self),
            old(self).table().live(entity) ==> {
                &&& final(self).table().free_list() == old(self).table().free_list().push(entity)
                &&& forall|k: u64|
                    old(self).table().registered(k) ==> final(self).table().column(k) == old(
                        self,
                    ).table().column(k).update(entity as int, None)
            },
    {
        self.entity_registry.free_entity(entity);
    }

    /// Resolves a query against the current table state: exactly the live
    /// slots holding a component for each required key, ascending, with every
    /// slot on the free list excluded.
    pub fn resolve(&self, query: &Query) -> (r: Vec<usize>)
        requires
            self.wf(),
        ensures
            forall|i: int, j: int| 0 <= i < j < r@.len() ==> r@[i] < r@[j],
            forall|slot: usize|
                #[trigger] r@.contains(slot) <==> self.table().live(slot) && slot_matches(
                    self.table(),
                    query.keys(),
                    slot,
                ),
    {
        crate::ecs::resolve_query(&self.entity_registry, query)
    }
}

impl<C, R> Default for World<C, R> {
    /// An empty world holding no slots, no columns, and no resources.
    fn default() -> (w: Self)
        ensures
            w.wf(),
            w.table().num_slots() == 0,
            w.table().free_list() == Seq::<usize>::empty(),
            forall|k: u64| !(#[trigger] w.table().registered(k)),
            w.resources() == Map::<u64, R>::empty(),
    {
        World {
            resource_registry: ResourceRegistry::default(),
            entity_registry: EntityRegistry::default(),
        }
    }
}

} // verus!

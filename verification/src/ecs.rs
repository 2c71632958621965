//! The ECS facade, its builder, query descriptions, and the error type.

use vstd::prelude::*;

verus! {

use crate::entity::{EntityRegistry, slot_matches, resolve_slots};
use crate::resource::ResourceRegistry;

/// An entity is a bare slot index into every component column.
pub type EntityID = usize;

/// Attaching a component whose type key was never registered is rejected with
/// this error rather than silently dropped.
#[derive(Debug, PartialEq, Eq, Structural)]
pub enum EcsError {
    ComponentNotRegistered,
}

/// A stateless description of the component type keys an entity must hold to
/// match; the order keys are added in does not affect which entities match.
pub struct Query {
    pub(crate) with_component_types: Vec<u64>,
}

impl Query {
    /// The required component type keys, in insertion order.
    pub closed spec fn keys(self) -> Seq<u64> {
        self.with_component_types@
    }

    /// An empty requirement set: it matches every live entity.
    pub fn new() -> (q: Query)
        ensures
            q.keys() == Seq::<u64>::empty(),
    {
        Query { with_component_types: Vec::new() }
    }

    /// Adds one required component type key.
    pub fn with(self, key: u64) -> (q: Query)
        ensures
            q.keys() == self.keys().push(key),
    {
        let mut with_component_types = self.with_component_types;
        with_component_types.push(key);
        Query { with_component_types }
    }

    /// Marks the query ready for use; the requirement set is unchanged.
    pub fn build(self) -> (q: Query)
        ensures
            q.keys() == self.keys(),
    {
        Query { with_component_types: self.with_component_types }
    }
}

/// Resolves `query` against an entity table: exactly the live slots holding a
/// component for each required key, in ascending slot order.
pub(crate) fn resolve_query<C>(reg: &EntityRegistry<C>, query: &Query) -> (r: Vec<usize>)
    requires
        reg.wf(),
    ensures
        forall|i: int, j: int| 0 <= i < j < r@.len() ==> r@[i] < r@[j],
        forall|slot: usize|
            #[trigger] r@.contains(slot) <==> reg.live(slot) && slot_matches(
                *reg,
                query.keys(),
                slot,
            ),
{
    resolve_slots(reg, &query.with_component_types)
}

/// The facade combining the entity table and the resource registry, handed to
/// systems once per tick.
pub struct ECS<C, R> {
    pub(crate) entity_registry: EntityRegistry<C>,
    pub(crate) resource_registry: ResourceRegistry<R>,
}

impl<C, R> ECS<C, R> {
    /// The entity table, for phrasing contracts over its columns and slots.
    pub closed spec fn table(self) -> EntityRegistry<C> {
        self.entity_registry
    }

    /// The registered resources, one instance per type key.
    pub closed spec fn resources(self) -> Map<u64, R> {
        self.resource_registry@
    }

    /// Both underlying stores are internally consistent.
    pub closed spec fn wf(self) -> bool {
        self.entity_registry.wf() && self.resource_registry.wf()
    }

    /// Declares the component column for `key`.
    pub fn register_component(&mut self, key: u64)
        requires
            old(self).wf(),
        ensures
            final(self).wf(),
            forall|k: u64|
                #[trigger] final(self).table().registered(k) <==> old(self).table().registered(k)
                    || k == key,
            final(self).table().column(key).len() == final(self).table().num_slots(),
            forall|i: int|
                0 <= i < final(self).table().num_slots() ==> final(self).table().cell(
                    key,
                    i,
                ) is None,
            forall|k: u64|
                k != key && old(self).table().registered(k) ==> final(self).table().column(k)
                    == old(self).table().column(k),
            final(self).table().num_slots() == old(self).table().num_slots(),
            final(self).table().free_list() == old(self).table().free_list(),
            final(self).resources() == old(self).resources(),
    {
        self.entity_registry.register_component(key);
    }

    /// Stores or replaces the resource instance under `key`.
    pub fn register_resource(&mut self, key: u64, resource: R)
        requires
            old(self).wf(),
        ensures
            final(self).wf(),
            final(self).resources() == old(self).resources().insert(key, resource),
            final(self).table() == old(self).table(),
    {
        self.resource_registry.register(key, resource);
    }

    /// Shared access to the resource under `key`.
    pub fn get_resource(&self, key: u64) -> (r: Option<&R>)
        requires
            self.wf(),
        ensures
            match r {
                Some(resource) => self.resources().contains_key(key) && *resource
                    == self.resources()[key],
                None => !self.resources().contains_key(key),
            },
    {
        self.resource_registry.get(key)
    }

    /// Exclusive access to the resource under `key`; the registry afterwards
    /// holds whatever the caller leaves behind the handle.
    pub fn get_resource_mut(&mut self, key: u64) -> (r: Option<&mut R>)
        requires
            old(self).wf(),
        ensures
            final(self).wf(),
            final(self).table() == old(self).table(),
            match r {
                Some(resource) => {
                    &&& old(self).resources().contains_key(key)
                    &&& *resource == old(self).resources()[key]
                    &&& final(self).resources() == old(self).resources().insert(
                        key,
                        *final(resource),
                    )
                },
                None => !old(self).resources().contains_key(key) && final(self).resources() == old(
                    self,
                ).resources(),
            },
    {
        self.resource_registry.get_mut(key)
    }

    /// Allocates a slot for a new entity, reusing the oldest freed slot when
    /// one exists; a reused slot starts with every column empty.
    pub fn create_entity(&mut self) -> (id: EntityID)
        requires
            old(self).wf(),
            old(self).table().num_slots() < usize::MAX,
        ensures
            final(self).wf(),
            final(self).resources() == old(self).resources(),
            forall|k: u64|
                #[trigger] final(self).table().registered(k) <==> old(self).table().registered(k),
            old(self).table().free_list().len() > 0 ==> {
                &&& id == old(self).table().free_list()[0]
                &&& final(self).table().free_list() == old(self).table().free_list().drop_first()
                &&& final(self).table().num_slots() == old(self).table().num_slots()
                &&& forall|k: u64|
                    old(self).table().registered(k) ==> final(self).table().column(k) == old(
                        self,
                    ).table().column(k)
            },
            old(self).table().free_list().len() == 0 ==> {
                &&& id == old(self).table().num_slots()
                &&& final(self).table().num_slots() == old(self).table().num_slots() + 1
                &&& final(self).table().free_list() == old(self).table().free_list()
                &&& forall|k: u64|
                    old(self).table().registered(k) ==> final(self).table().column(k) == old(
                        self,
                    ).table().column(k).push(None)
            },
            final(self).table().live(id),
            forall|k: u64|
                final(self).table().registered(k) ==> final(self).table().cell(
                    k,
                    id as int,
                ) is None,
    {
        self.entity_registry.create_entity()
    }

    /// Attaches (or updates) the component of type `key` on the live entity
    /// `id`; an unregistered key is rejected and nothing changes.
    pub fn attach_component(&mut self, id: EntityID, key: u64, component: C) -> (r: Result<
        (),
        EcsError,
    >)
        requires
            old(self).wf(),
            old(self).table().live(id),
        ensures
            final(self).wf(),
            final(self).resources() == old(self).resources(),
            !old(self).table().registered(key) ==> r == Err::<(), EcsError>(
                EcsError::ComponentNotRegistered,
            ) && *final(self) == *old(self),
            old(self).table().registered(key) ==> {
                &&& r == Ok::<(), EcsError>(())
                &&& final(self).table().column(key) == old(self).table().column(key).update(
                    id as int,
                    Some(component),
                )
                &&& forall|k: u64|
                    k != key && old(self).table().registered(k) ==> final(self).table().column(k)
                        == old(self).table().column(k)
                &&& forall|k: u64|
                    #[trigger] final(self).table().registered(k) <==> old(
                        self,
                    ).table().registered(k)
                &&& final(self).table().num_slots() == old(self).table().num_slots()
                &&& final(self).table().free_list() == old(self).table().free_list()
            },
    {
        self.entity_registry.set_entity_component(id, key, component)
    }

    /// A shared handle on the component of type `key` held by `entity`.
    pub fn get_component(&self, entity: EntityID, key: u64) -> (r: Option<&C>)
        requires
            self.wf(),
            entity < self.table().num_slots(),
        ensures
            match r {
                Some(c) => self.table().has_cell(key, entity) && self.table().cell(
                    key,
                    entity as int,
                ) == Some(*c),
                None => !self.table().has_cell(key, entity),
            },
    {
        self.entity_registry.get_entity_component(entity, key)
    }

    /// Reads the component of type `key` on `entity`, applies `func` to a
    /// clone of it, and stores the result back; an entity without that
    /// component is left untouched.
    pub fn update_component<F: Fn(C) -> C>(&mut self, entity: EntityID, key: u64, func: F) -> (r:
        Result<(), EcsError>) where C: Clone
        requires
            old(self).wf(),
            entity < old(self).table().num_slots(),
            forall|c: C|
                old(self).table().has_cell(key, entity) && cloned(
                    old(self).table().cell(key, entity as int).unwrap(),
                    c,
                ) ==> call_requires(func, (c,)),
        ensures
            final(self).wf(),
            r == Ok::<(), EcsError>(()),
            final(self).resources() == old(self).resources(),
            !old(self).table().has_cell(key, entity) ==> *final(self) == *old(self),
            old(self).table().has_cell(key, entity) ==> {
                &&& exists|c: C, v: C|
                    {
                        &&& cloned(old(self).table().cell(key, entity as int).unwrap(), c)
                        &&& #[trigger] call_ensures(func, (c,), v)
                        &&& final(self).table().column(key) == old(self).table().column(
                            key,
                        ).update(entity as int, Some(v))
                    }
                &&& forall|k: u64|
                    k != key && old(self).table().registered(k) ==> final(self).table().column(k)
                        == old(self).table().column(k)
                &&& forall|k: u64|
                    #[trigger] final(self).table().registered(k) <==> old(
                        self,
                    ).table().registered(k)
                &&& final(self).table().num_slots() == old(self).table().num_slots()
                &&& final(self).table().free_list() == old(self).table().free_list()
            },
    {
        let current = self.clone_component(entity, key);
        match current {
            Some(c) => {
                proof {
                    self.entity_registry.lemma_occupied_is_live(key, entity);
                }
                let updated = func(c);
                let r = self.entity_registry.set_entity_component(entity, key, updated);
                match r {
                    Ok(_) => Ok(()),
                    Err(e) => Err(e),
                }
            },
            None => Ok(()),
        }
    }

    /// A clone of the component of type `key` held by `entity`, if any.
    pub fn clone_component(&self, entity: EntityID, key: u64) -> (r: Option<C>) where C: Clone
        requires
            self.wf(),
            entity < self.table().num_slots(),
        ensures
            match r {
                Some(c) => self.table().has_cell(key, entity) && cloned(
                    self.table().cell(key, entity as int).unwrap(),
                    c,
                ),
                None => !self.table().has_cell(key, entity),
            },
    {
        match self.entity_registry.get_entity_component(entity, key) {
            Some(c) => Some(c.clone()),
            None => None,
        }
    }

    /// Resolves a query against the current table state: every live slot
    /// holding a component for each required key, in ascending slot order.
    pub fn query(&self, query: &Query) -> (r: Vec<EntityID>)
        requires
            self.wf(),
        ensures
            forall|i: int, j: int| 0 <= i < j < r@.len() ==> r@[i] < r@[j],
            forall|slot: usize|
                #[trigger] r@.contains(slot) <==> self.table().live(slot) && slot_matches(
                    self.table(),
                    query.keys(),
                    slot,
                ),
    {
        resolve_query(&self.entity_registry, query)
    }
}

impl<C, R> Default for ECS<C, R> {
    /// An ECS with no slots, no component columns, and no resources.
    fn default() -> (ecs: Self)
        ensures
            ecs.wf(),
            ecs.table().num_slots() == 0,
            ecs.table().free_list() == Seq::<usize>::empty(),
            forall|k: u64| !(#[trigger] ecs.table().registered(k)),
            ecs.resources() == Map::<u64, R>::empty(),
    {
        ECS {
            entity_registry: EntityRegistry::default(),
            resource_registry: ResourceRegistry::default(),
        }
    }
}

/// Builds an ECS by accumulating component type registrations and resources
/// before any entity exists.
pub struct ECSBuilder<C, R> {
    subject: ECS<C, R>,
}

impl<C, R> ECSBuilder<C, R> {
    /// The ECS being assembled.
    pub closed spec fn subject(self) -> ECS<C, R> {
        self.subject
    }

    /// Starts from an empty ECS.
    pub fn new() -> (b: Self)
        ensures
            b.subject().wf(),
            b.subject().table().num_slots() == 0,
            b.subject().table().free_list() == Seq::<usize>::empty(),
            forall|k: u64| !(#[trigger] b.subject().table().registered(k)),
            b.subject().resources() == Map::<u64, R>::empty(),
    {
        ECSBuilder { subject: ECS::default() }
    }

    /// Declares a component column for `key`.
    pub fn with_component(self, key: u64) -> (b: Self)
        requires
            self.subject().wf(),
        ensures
            b.subject().wf(),
            forall|k: u64|
                #[trigger] b.subject().table().registered(k) <==> self.subject().table().registered(
                    k,
                ) || k == key,
            b.subject().table().num_slots() == self.subject().table().num_slots(),
            b.subject().table().free_list() == self.subject().table().free_list(),
            b.subject().resources() == self.subject().resources(),
    {
        let mut builder = self;
        builder.subject.register_component(key);
        builder
    }

    /// Registers the resource instance under `key`.
    pub fn with_resource(self, key: u64, resource: R) -> (b: Self)
        requires
            self.subject().wf(),
        ensures
            b.subject().wf(),
            b.subject().resources() == self.subject().resources().insert(key, resource),
            b.subject().table() == self.subject().table(),
    {
        let mut builder = self;
        builder.subject.register_resource(key, resource);
        builder
    }

    /// Hands the assembled ECS over.
    pub fn build(self) -> (ecs: ECS<C, R>)
        ensures
            ecs == self.subject(),
    {
        self.subject
    }
}

/// An ordered collection of keyed component values meant for one entity,
/// accumulated before the entity is spawned.
pub struct EntitySpecification<C> {
    components: Vec<(u64, C)>,
}

impl<C> EntitySpecification<C> {
    /// The accumulated `(type key, component)` pairs, in insertion order.
    pub closed spec fn components(self) -> Seq<(u64, C)> {
        self.components@
    }

    /// An empty specification.
    pub fn new() -> (s: Self)
        ensures
            s.components() == Seq::<(u64, C)>::empty(),
    {
        EntitySpecification { components: Vec::new() }
    }

    /// Appends one component under its type key.
    pub fn with(self, key: u64, component: C) -> (s: Self)
        ensures
            s.components() == self.components().push((key, component)),
    {
        let mut components = self.components;
        components.push((key, component));
        EntitySpecification { components }
    }
}

} // verus!

//! The entity table: a free-slot list plus one dense column of optional
//! component cells per registered component type key, all columns kept exactly
//! as long as the number of slots ever allocated.

use vstd::prelude::*;
use std::collections::VecDeque;

verus! {

use crate::ecs::EcsError;

/// True when no key occurs twice in `keys`.
pub open spec fn keys_unique(keys: Seq<u64>) -> bool {
    forall|i: int, j: int| 0 <= i < j < keys.len() ==> keys[i] != keys[j]
}

/// The position of `key` in `keys`; meaningful only when `keys` contains `key`
/// (and unambiguous when `keys_unique(keys)` holds).
pub open spec fn key_index(keys: Seq<u64>, key: u64) -> int {
    choose|i: int| 0 <= i < keys.len() && keys[i] == key
}

/// When `keys` contains `key`, `key_index` lands on an occurrence of `key`.
pub proof fn lemma_key_index_valid(keys: Seq<u64>, key: u64)
    requires
        keys.contains(key),
    ensures
        0 <= key_index(keys, key) < keys.len(),
        keys[key_index(keys, key)] == key,
{
    assert(exists|i: int| 0 <= i < keys.len() && keys[i] == key);
}

/// Under uniqueness, `key_index` inverts indexing.
pub proof fn lemma_key_index_of(keys: Seq<u64>, i: int)
    requires
        keys_unique(keys),
        0 <= i < keys.len(),
    ensures
        key_index(keys, keys[i]) == i,
{
    assert(keys.contains(keys[i]));
    lemma_key_index_valid(keys, keys[i]);
}

/// True when every key in `req` has a non-empty cell at `slot`.
pub open spec fn slot_matches<C>(reg: EntityRegistry<C>, req: Seq<u64>, slot: usize) -> bool {
    forall|i: int| 0 <= i < req.len() ==> #[trigger] reg.has_cell(req[i], slot)
}

/// Resolution is stable and repeatable for a given table state: an ascending
/// slot sequence is fully determined by which slots it contains, so any two
/// resolutions of one query against one table state are equal.
pub proof fn lemma_ascending_slots_determined_by_membership(a: Seq<usize>, b: Seq<usize>)
    requires
        forall|i: int, j: int| 0 <= i < j < a.len() ==> a[i] < a[j],
        forall|i: int, j: int| 0 <= i < j < b.len() ==> b[i] < b[j],
        forall|s: usize| #[trigger] a.contains(s) <==> b.contains(s),
    ensures
        a == b,
    decreases a.len(),
{
    if a.len() == 0 {
        if b.len() > 0 {
            assert(b.contains(b[0]));
            assert(a.contains(b[0]));
        }
        assert(a =~= b);
    } else {
        assert(a.contains(a[0]));
        assert(b.contains(a[0]));
        assert(b.contains(b[0]));
        assert(a.contains(b[0]));
        let ia = choose|i: int| 0 <= i < b.len() && b[i] == a[0];
        let ib = choose|i: int| 0 <= i < a.len() && a[i] == b[0];
        assert(b[0] <= b[ia]);
        assert(a[0] <= a[ib]);
        assert(a[0] == b[0]);
        let ta = a.drop_first();
        let tb = b.drop_first();
        assert forall|s: usize| #[trigger] ta.contains(s) implies tb.contains(s) by {
            let i = choose|i: int| 0 <= i < ta.len() && ta[i] == s;
            assert(a[i + 1] == s);
            assert(a.contains(s));
            let j = choose|j: int| 0 <= j < b.len() && b[j] == s;
            assert(b[0] == a[0] && a[0] < a[i + 1]);
            assert(j != 0);
            assert(tb[j - 1] == s);
        }
        assert forall|s: usize| #[trigger] tb.contains(s) implies ta.contains(s) by {
            let i = choose|i: int| 0 <= i < tb.len() && tb[i] == s;
            assert(b[i + 1] == s);
            assert(b.contains(s));
            assert(a.contains(s));
            let j = choose|j: int| 0 <= j < a.len() && a[j] == s;
            assert(a[0] == b[0] && b[0] < b[i + 1]);
            assert(j != 0);
            assert(ta[j - 1] == s);
        }
        lemma_ascending_slots_determined_by_membership(ta, tb);
        assert(a.len() == b.len());
        assert forall|i: int| 0 <= i < a.len() implies a[i] == b[i] by {
            if i > 0 {
                assert(ta[i - 1] == tb[i - 1]);
            }
        }
        assert(a =~= b);
    }
}

/// The entity table. Entities are bare slot indices; each registered component
/// type key owns one column holding an optional cell per allocated slot.
pub struct EntityRegistry<C> {
    free_slots: VecDeque<usize>,
    keys: Vec<u64>,
    columns: Vec<Vec<Option<C>>>,
    slots: usize,
}

impl<C> EntityRegistry<C> {
    /// How many slots were ever allocated, free ones included.
    pub closed spec fn num_slots(self) -> usize {
        self.slots
    }

    /// The slots currently available for reuse, oldest first.
    pub closed spec fn free_list(self) -> Seq<usize> {
        self.free_slots@
    }

    /// Whether a column exists for `key`.
    pub closed spec fn registered(self, key: u64) -> bool {
        self.keys@.contains(key)
    }

    /// The column owned by `key`; meaningful only when `key` is registered.
    pub closed spec fn column(self, key: u64) -> Seq<Option<C>> {
        self.columns@[key_index(self.keys@, key)]@
    }

    /// The cell of `key`'s column at `slot`.
    pub open spec fn cell(self, key: u64, slot: int) -> Option<C> {
        self.column(key)[slot]
    }

    /// An allocated slot that is not on the free list.
    pub open spec fn live(self, slot: usize) -> bool {
        slot < self.num_slots() && !self.free_list().contains(slot)
    }

    /// Whether `key` is registered and its cell at `slot` holds a value.
    pub open spec fn has_cell(self, key: u64, slot: usize) -> bool {
        &&& self.registered(key)
        &&& slot < self.num_slots()
        &&& self.cell(key, slot as int) is Some
    }

    /// The table's internal invariant: one column per distinct key, all
    /// columns as long as the slot count, and the free list formed of
    /// distinct allocated slots whose cells are all empty.
    pub closed spec fn wf(self) -> bool {
        &&& self.keys@.len() == self.columns@.len()
        &&& keys_unique(self.keys@)
        &&& forall|i: int|
            0 <= i < self.columns@.len() ==> (#[trigger] self.columns@[i])@.len() == self.slots
        &&& forall|i: int|
            0 <= i < self.free_slots@.len() ==> (#[trigger] self.free_slots@[i]) < self.slots
        &&& forall|i: int, j: int|
            0 <= i < j < self.free_slots@.len() ==> self.free_slots@[i] != self.free_slots@[j]
        &&& forall|i: int, j: int|
            0 <= i < self.columns@.len() && 0 <= j < self.free_slots@.len()
                ==> (#[trigger] self.columns@[i]@[self.free_slots@[j] as int]) is None
    }

    /// Every registered column is exactly one cell per allocated slot long,
    /// and every slot on the free list holds an empty cell in every column.
    pub proof fn lemma_columns_cover_all_slots(self)
        requires
            self.wf(),
        ensures
            forall|k: u64|
                self.registered(k) ==> (#[trigger] self.column(k)).len() == self.num_slots(),
            forall|k: u64, j: int|
                self.registered(k) && 0 <= j < self.free_list().len()
                    ==> #[trigger] self.cell(k, self.free_list()[j] as int) is None,
    {
        assert forall|k: u64| self.registered(k) implies (#[trigger] self.column(k)).len()
            == self.num_slots() by {
            lemma_key_index_valid(self.keys@, k);
        }
        assert forall|k: u64, j: int|
            self.registered(k) && 0 <= j < self.free_list().len() implies #[trigger] self.cell(
            k,
            self.free_list()[j] as int,
        ) is None by {
            lemma_key_index_valid(self.keys@, k);
        }
    }

    /// A slot holding a component is never on the free list: freed slots hold
    /// only empty cells, so stale data cannot survive a free.
    pub proof fn lemma_occupied_is_live(self, key: u64, slot: usize)
        requires
            self.wf(),
            self.has_cell(key, slot),
        ensures
            self.live(slot),
    {
        if self.free_list().contains(slot) {
            let j = choose|j: int| 0 <= j < self.free_slots@.len() && self.free_slots@[j] == slot;
            lemma_key_index_valid(self.keys@, key);
            assert(self.columns@[key_index(self.keys@, key)]@[self.free_slots@[j] as int] is None);
        }
    }

    /// Declares (or resets) the column for `key`, backfilled with an empty
    /// cell for every already-allocated slot so it is never shorter than the
    /// other columns.
    pub fn register_component(&mut self, key: u64)
        requires
            old(self).wf(),
        ensures
            final(self).wf(),
            forall|k: u64|
                #[trigger] final(self).registered(k) <==> old(self).registered(k) || k == key,
            final(self).column(key).len() == final(self).num_slots(),
            forall|i: int| 0 <= i < final(self).num_slots() ==> final(self).cell(key, i) is None,
            forall|k: u64|
                k != key && old(self).registered(k) ==> final(self).column(k) == old(self).column(
                    k,
                ),
            final(self).num_slots() == old(self).num_slots(),
            final(self).free_list() == old(self).free_list(),
    {
        let ghost pre = *old(self);
        let mut column: Vec<Option<C>> = Vec::new();
        let mut i: usize = 0;
        while i < self.slots
            invariant
                i <= self.slots,
                column@.len() == i,
                forall|j: int| 0 <= j < i ==> column@[j] is None,
                *self == pre,
            decreases self.slots - i,
        {
            column.push(None);
            i += 1;
        }
        match find_key(&self.keys, key) {
            Some(at) => {
                self.columns.set(at, column);
                proof {
                    lemma_key_index_of(pre.keys@, at as int);
                    assert forall|k: u64| k != key && pre.registered(k) implies self.column(k)
                        == pre.column(k) by {
                        lemma_key_index_valid(pre.keys@, k);
                    }
                    lemma_key_index_valid(self.keys@, key);
                }
            },
            None => {
                self.keys.push(key);
                self.columns.push(column);
                proof {
                    assert forall|k: u64| #[trigger] self.registered(k) implies pre.registered(k)
                        || k == key by {
                        let at = key_index(self.keys@, k);
                        lemma_key_index_valid(self.keys@, k);
                        if at < pre.keys@.len() {
                            assert(pre.keys@.contains(k));
                        }
                    }
                    assert forall|k: u64|
                        pre.registered(k) || k == key implies #[trigger] self.registered(k) by {
                        if pre.registered(k) {
                            lemma_key_index_valid(pre.keys@, k);
                            assert(self.keys@[key_index(pre.keys@, k)] == k);
                        } else {
                            assert(self.keys@[pre.keys@.len() as int] == key);
                        }
                    }
                    assert(keys_unique(self.keys@)) by {
                        assert forall|i2: int, j2: int|
                            0 <= i2 < j2 < self.keys@.len() implies self.keys@[i2]
                            != self.keys@[j2] by {
                            if j2 == pre.keys@.len() {
                                assert(pre.keys@[i2] == self.keys@[i2]);
                                if self.keys@[i2] == key {
                                    assert(pre.keys@.contains(key));
                                }
                            }
                        }
                    }
                    assert forall|k: u64| k != key && pre.registered(k) implies self.column(k)
                        == pre.column(k) by {
                        lemma_key_index_valid(pre.keys@, k);
                        lemma_key_index_of(self.keys@, key_index(pre.keys@, k));
                    }
                    lemma_key_index_of(self.keys@, pre.keys@.len() as int);
                }
            },
        }
    }

    /// The column for `key`, if one was registered.
    pub fn get_components(&self, key: u64) -> (r: Option<&Vec<Option<C>>>)
        requires
            self.wf(),
        ensures
            match r {
                Some(column) => self.registered(key) && column@ == self.column(key),
                None => !self.registered(key),
            },
    {
        match find_key(&self.keys, key) {
            Some(at) => {
                proof {
                    lemma_key_index_of(self.keys@, at as int);
                }
                Some(&self.columns[at])
            },
            None => None,
        }
    }

    /// A shared handle on the component of type `key` held by `entity`, or
    /// nothing when the key is unregistered or the cell is empty.
    pub fn get_entity_component(&self, entity: usize, key: u64) -> (r: Option<&C>)
        requires
            self.wf(),
            entity < self.num_slots(),
        ensures
            match r {
                Some(c) => self.has_cell(key, entity) && self.cell(key, entity as int) == Some(*c),
                None => !self.has_cell(key, entity),
            },
    {
        match find_key(&self.keys, key) {
            Some(at) => {
                proof {
                    lemma_key_index_of(self.keys@, at as int);
                }
                match &self.columns[at][entity] {
                    Some(c) => Some(c),
                    None => None,
                }
            },
            None => None,
        }
    }

    /// Whether `entity` currently holds a component of type `key`.
    pub fn has_entity_component(&self, entity: usize, key: u64) -> (r: bool)
        requires
            self.wf(),
        ensures
            r == self.has_cell(key, entity),
    {
        match find_key(&self.keys, key) {
            Some(at) => {
                proof {
                    lemma_key_index_of(self.keys@, at as int);
                }
                entity < self.slots && self.columns[at][entity].is_some()
            },
            None => false,
        }
    }

    /// Allocates a slot for a new entity: the oldest freed slot when one is
    /// available (its cells are already empty), else a fresh slot appended to
    /// every column.
    pub fn create_entity(&mut self) -> (slot: usize)
        requires
            old(self).wf(),
            old(self).num_slots() < usize::MAX,
        ensures
            final(self).wf(),
            forall|k: u64| #[trigger] final(self).registered(k) <==> old(self).registered(k),
            old(self).free_list().len() > 0 ==> {
                &&& slot == old(self).free_list()[0]
                &&& final(self).free_list() == old(self).free_list().drop_first()
                &&& final(self).num_slots() == old(self).num_slots()
                &&& forall|k: u64|
                    old(self).registered(k) ==> final(self).column(k) == old(self).column(k)
            },
            old(self).free_list().len() == 0 ==> {
                &&& slot == old(self).num_slots()
                &&& final(self).num_slots() == old(self).num_slots() + 1
                &&& final(self).free_list() == old(self).free_list()
                &&& forall|k: u64|
                    old(self).registered(k) ==> final(self).column(k) == old(self).column(k).push(
                        None,
                    )
            },
            final(self).live(slot),
            forall|k: u64| final(self).registered(k) ==> final(self).cell(k, slot as int) is None,
    {
        let ghost pre = *old(self);
        let reused = self.free_slots.pop_front();
        match reused {
            Some(slot) => {
                proof {
                    assert forall|k: u64| self.registered(k) implies self.cell(
                        k,
                        slot as int,
                    ) is None by {
                        lemma_key_index_valid(pre.keys@, k);
                        assert(pre.free_slots@[0] == slot);
                    }
                    assert(!self.free_slots@.contains(slot)) by {
                        if exists|i: int|
                            0 <= i < self.free_slots@.len() && self.free_slots@[i] == slot {
                            let i = choose|i: int|
                                0 <= i < self.free_slots@.len() && self.free_slots@[i] == slot;
                            assert(pre.free_slots@[i + 1] == slot);
                            assert(pre.free_slots@[0] == slot);
                        }
                    }
                }
                slot
            },
            None => self.allocate_entity_slot(),
        }
    }

    /// Appends one empty cell to every column, in lockstep, and hands out the
    /// newly covered slot.
    fn allocate_entity_slot(&mut self) -> (slot: usize)
        requires
            old(self).wf(),
            old(self).num_slots() < usize::MAX,
        ensures
            final(self).wf(),
            slot == old(self).num_slots(),
            final(self).num_slots() == old(self).num_slots() + 1,
            final(self).free_list() == old(self).free_list(),
            forall|k: u64| #[trigger] final(self).registered(k) <==> old(self).registered(k),
            forall|k: u64|
                old(self).registered(k) ==> final(self).column(k) == old(self).column(k).push(
                    None,
                ),
            final(self).live(slot),
            forall|k: u64| final(self).registered(k) ==> final(self).cell(k, slot as int) is None,
    {
        let ghost pre = *old(self);
        let mut at: usize = 0;
        while at < self.columns.len()
            invariant
                pre.wf(),
                at <= self.columns.len(),
                self.keys == pre.keys,
                self.free_slots == pre.free_slots,
                self.slots == pre.slots,
                self.columns@.len() == pre.columns@.len(),
                forall|i: int|
                    0 <= i < at ==> (#[trigger] self.columns@[i])@ == pre.columns@[i]@.push(
                        None::<C>,
                    ),
                forall|i: int| at <= i < self.columns@.len() ==> self.columns@[i] == pre.columns@[i],
            decreases self.columns@.len() - at,
        {
            self.columns[at].push(None);
            at += 1;
        }
        let slot = self.slots;
        self.slots = self.slots + 1;
        proof {
            assert forall|k: u64| self.registered(k) implies self.column(k) == pre.column(k).push(
                None,
            ) by {
                lemma_key_index_valid(pre.keys@, k);
            }
            assert(!self.free_slots@.contains(slot)) by {
                if exists|i: int| 0 <= i < self.free_slots@.len() && self.free_slots@[i] == slot {
                    let i = choose|i: int|
                        0 <= i < self.free_slots@.len() && self.free_slots@[i] == slot;
                    assert(pre.free_slots@[i] < pre.slots);
                }
            }
            assert forall|k: u64| self.registered(k) implies self.cell(k, slot as int) is None by {
                lemma_key_index_valid(pre.keys@, k);
            }
        }
        slot
    }

    /// Stores (or replaces) the component of type `key` for the live entity
    /// `id`; a never-registered key is rejected and the table left unchanged.
    pub fn set_entity_component(&mut self, id: usize, key: u64, component: C) -> (r: Result<
        (),
        EcsError,
    >)
        requires
            old(self).wf(),
            old(self).live(id),
        ensures
            final(self).wf(),
            !old(self).registered(key) ==> r == Err::<(), EcsError>(
                EcsError::ComponentNotRegistered,
            ) && *final(self) == *old(self),
            old(self).registered(key) ==> {
                &&& r == Ok::<(), EcsError>(())
                &&& final(self).column(key) == old(self).column(key).update(
                    id as int,
                    Some(component),
                )
                &&& forall|k: u64|
                    k != key && old(self).registered(k) ==> final(self).column(k) == old(
                        self,
                    ).column(k)
                &&& forall|k: u64|
                    #[trigger] final(self).registered(k) <==> old(self).registered(k)
                &&& final(self).num_slots() == old(self).num_slots()
                &&& final(self).free_list() == old(self).free_list()
            },
    {
        let ghost pre = *old(self);
        match find_key(&self.keys, key) {
            Some(at) => {
                proof {
                    lemma_key_index_of(pre.keys@, at as int);
                }
                self.columns[at].set(id, Some(component));
                proof {
                    assert forall|k: u64| k != key && pre.registered(k) implies self.column(k)
                        == pre.column(k) by {
                        lemma_key_index_valid(pre.keys@, k);
                    }
                    assert(self.wf()) by {
                        assert forall|i: int, j: int|
                            0 <= i < self.columns@.len() && 0 <= j < self.free_slots@.len() implies (
                        #[trigger] self.columns@[i]@[self.free_slots@[j] as int]) is None by {
                            assert(pre.free_slots@[j] != id) by {
                                assert(pre.free_slots@.contains(pre.free_slots@[j]));
                            }
                            assert(pre.columns@[i]@[pre.free_slots@[j] as int] is None);
                        }
                    }
                }
                Ok(())
            },
            None => Err(EcsError::ComponentNotRegistered),
        }
    }

    /// Returns the entity's slot to the free list after clearing its cell in
    /// every column. Freeing a slot that is out of range or already free is a
    /// guarded no-op.
    pub fn free_entity(&mut self, entity: usize)
        requires
            old(self).wf(),
        ensures
            final(self).wf(),
            forall|k: u64| #[trigger] final(self).registered(k) <==> old(self).registered(k),
            final(self).num_slots() == old(self).num_slots(),
            !old(self).live(entity) ==> *final(self) == *old(self),
            old(self).live(entity) ==> {
                &&& final(self).free_list() == old(self).free_list().push(entity)
                &&& forall|k: u64|
                    old(self).registered(k) ==> final(self).column(k) == old(self).column(
                        k,
                    ).update(entity as int, None)
            },
    {
        if entity >= self.slots {
            return ;
        }
        if free_list_contains(&self.free_slots, entity) {
            return ;
        }
        let ghost pre = *old(self);
        let mut at: usize = 0;
        while at < self.columns.len()
            invariant
                pre.wf(),
                entity < pre.slots,
                at <= self.columns.len(),
                self.keys == pre.keys,
                self.free_slots == pre.free_slots,
                self.slots == pre.slots,
                self.columns@.len() == pre.columns@.len(),
                forall|i: int|
                    0 <= i < at ==> (#[trigger] self.columns@[i])@ == pre.columns@[i]@.update(
                        entity as int,
                        None::<C>,
                    ),
                forall|i: int| at <= i < self.columns@.len() ==> self.columns@[i] == pre.columns@[i],
            decreases self.columns@.len() - at,
        {
            proof {
                assert(self.columns@[at as int] == pre.columns@[at as int]);
                assert((#[trigger] pre.columns@[at as int])@.len() == pre.slots);
            }
            self.columns[at].set(entity, None);
            at += 1;
        }
        self.free_slots.push_back(entity);
        proof {
            assert forall|k: u64| pre.registered(k) implies self.column(k) == pre.column(k).update(
                entity as int,
                None,
            ) by {
                lemma_key_index_valid(pre.keys@, k);
            }
            assert(self.wf()) by {
                assert forall|i: int, j: int|
                    0 <= i < j < self.free_slots@.len() implies self.free_slots@[i]
                    != self.free_slots@[j] by {
                    if j == pre.free_slots@.len() {
                        assert(pre.free_slots@.contains(pre.free_slots@[i]));
                    }
                }
                assert forall|i: int, j: int|
                    0 <= i < self.columns@.len() && 0 <= j < self.free_slots@.len() implies (
                #[trigger] self.columns@[i]@[self.free_slots@[j] as int]) is None by {
                    if j < pre.free_slots@.len() {
                        assert(pre.columns@[i]@[pre.free_slots@[j] as int] is None);
                        assert(pre.free_slots@[j] != entity) by {
                            assert(pre.free_slots@.contains(pre.free_slots@[j]));
                        }
                    }
                }
            }
        }
    }
}

impl<C> Default for EntityRegistry<C> {
    /// An empty table: no slots allocated, no columns registered, nothing on
    /// the free list.
    fn default() -> (r: Self)
        ensures
            r.wf(),
            r.num_slots() == 0,
            r.free_list() == Seq::<usize>::empty(),
            forall|k: u64| !(#[trigger] r.registered(k)),
    {
        EntityRegistry {
            free_slots: VecDeque::new(),
            keys: Vec::new(),
            columns: Vec::new(),
            slots: 0,
        }
    }
}

/// Walks the allocated slots of an entity table in ascending order, skipping
/// every slot that was on the free list when the iterator was built.
pub struct EntityIterator {
    length: usize,
    skipped: Vec<usize>,
    current: usize,
}

impl EntityIterator {
    /// The number of allocated slots being walked.
    pub closed spec fn total(self) -> usize {
        self.length
    }

    /// The free slots to skip.
    pub closed spec fn skip_list(self) -> Seq<usize> {
        self.skipped@
    }

    /// The next slot the walk will consider.
    pub closed spec fn cursor(self) -> usize {
        self.current
    }

    /// Captures the table's slot count and free list; the walk starts at
    /// slot zero.
    pub fn new<C>(from: &EntityRegistry<C>) -> (it: EntityIterator)
        requires
            from.wf(),
        ensures
            it.total() == from.num_slots(),
            it.skip_list() == from.free_list(),
            it.cursor() == 0,
    {
        let mut skipped: Vec<usize> = Vec::new();
        let mut at: usize = 0;
        while at < from.free_slots.len()
            invariant
                at <= from.free_slots@.len(),
                skipped@ == from.free_slots@.subrange(0, at as int),
            decreases from.free_slots@.len() - at,
        {
            skipped.push(from.free_slots[at]);
            proof {
                assert(skipped@ =~= from.free_slots@.subrange(0, at + 1));
            }
            at += 1;
        }
        proof {
            assert(skipped@ =~= from.free_slots@);
        }
        EntityIterator { length: from.slots, skipped, current: 0 }
    }

    /// Yields the next allocated slot that is not skipped, advancing the
    /// cursor past any run of skipped slots, and terminates cleanly when the
    /// run reaches the end of the table.
    pub fn next(&mut self) -> (r: Option<usize>)
        ensures
            final(self).total() == old(self).total(),
            final(self).skip_list() == old(self).skip_list(),
            final(self).cursor() >= old(self).cursor(),
            match r {
                Some(slot) => {
                    &&& old(self).cursor() <= slot < old(self).total()
                    &&& !old(self).skip_list().contains(slot)
                    &&& forall|j: usize|
                        old(self).cursor() <= j < slot ==> old(self).skip_list().contains(j)
                    &&& final(self).cursor() == slot + 1
                },
                None => {
                    &&& forall|j: usize|
                        old(self).cursor() <= j < old(self).total() ==> old(
                            self,
                        ).skip_list().contains(j)
                    &&& final(self).cursor() >= final(self).total()
                },
            },
    {
        let ghost pre = *old(self);
        while self.current < self.length && slot_list_contains(&self.skipped, self.current)
            invariant
                self.length == pre.length,
                self.skipped == pre.skipped,
                self.current >= pre.current,
                forall|j: usize| pre.current <= j < self.current ==> pre.skipped@.contains(j),
            decreases self.length - self.current,
        {
            self.current = self.current + 1;
        }
        if self.current >= self.length {
            None
        } else {
            let slot = self.current;
            self.current = slot + 1;
            Some(slot)
        }
    }
}

/// True when every key in `req` is registered in `reg` and `slot` holds a
/// component of each; used to phrase what a query resolution returns.
pub(crate) fn all_keys_present<C>(reg: &EntityRegistry<C>, req: &Vec<u64>, slot: usize) -> (r:
    bool)
    requires
        reg.wf(),
    ensures
        r == slot_matches(*reg, req@, slot),
{
    let mut at: usize = 0;
    let mut matched = true;
    while at < req.len()
        invariant
            reg.wf(),
            at <= req@.len(),
            matched == (forall|i: int| 0 <= i < at ==> #[trigger] reg.has_cell(req@[i], slot)),
        decreases req@.len() - at,
    {
        if !reg.has_entity_component(slot, req[at]) {
            matched = false;
        }
        at += 1;
    }
    matched
}

/// Walks every allocated slot in ascending order and keeps exactly the live
/// slots whose columns hold a value for every required key.
pub(crate) fn resolve_slots<C>(reg: &EntityRegistry<C>, req: &Vec<u64>) -> (r: Vec<usize>)
    requires
        reg.wf(),
    ensures
        forall|i: int, j: int| 0 <= i < j < r@.len() ==> r@[i] < r@[j],
        forall|slot: usize|
            #[trigger] r@.contains(slot) <==> reg.live(slot) && slot_matches(*reg, req@, slot),
{
    let mut it = EntityIterator::new(reg);
    let mut out: Vec<usize> = Vec::new();
    loop
        invariant
            reg.wf(),
            it.total() == reg.num_slots(),
            it.skip_list() == reg.free_list(),
            forall|i: int, j: int| 0 <= i < j < out@.len() ==> out@[i] < out@[j],
            forall|i: int| 0 <= i < out@.len() ==> out@[i] < it.cursor(),
            forall|slot: usize|
                slot < it.cursor() ==> (#[trigger] out@.contains(slot) <==> reg.live(slot)
                    && slot_matches(*reg, req@, slot)),
        ensures
            forall|i: int, j: int| 0 <= i < j < out@.len() ==> out@[i] < out@[j],
            forall|slot: usize|
                #[trigger] out@.contains(slot) <==> reg.live(slot) && slot_matches(
                    *reg,
                    req@,
                    slot,
                ),
        decreases reg.num_slots() - it.cursor(),
    {
        let ghost prev_out = out@;
        let ghost prev_cursor = it.cursor();
        match it.next() {
            None => {
                proof {
                    assert forall|slot: usize| #[trigger]
                        out@.contains(slot) implies reg.live(slot) && slot_matches(
                        *reg,
                        req@,
                        slot,
                    ) by {
                        let i = choose|i: int| 0 <= i < out@.len() && out@[i] == slot;
                        assert(slot < prev_cursor);
                    }
                    assert forall|slot: usize|
                        reg.live(slot) && slot_matches(*reg, req@, slot) implies #[trigger] out@.contains(
                        slot,
                    ) by {
                        if slot >= prev_cursor {
                            assert(reg.free_list().contains(slot));
                        }
                    }
                }
                return out;
            },
            Some(slot) => {
                if all_keys_present(reg, req, slot) {
                    out.push(slot);
                }
                proof {
                    assert forall|s: usize|
                        s < it.cursor() implies (#[trigger] out@.contains(s) <==> reg.live(s)
                            && slot_matches(*reg, req@, s)) by {
                        if s < prev_cursor {
                            assert(out@.contains(s) == prev_out.contains(s)) by {
                                if prev_out.contains(s) {
                                    let i = choose|i: int|
                                        0 <= i < prev_out.len() && prev_out[i] == s;
                                    assert(out@[i] == s);
                                } else if out@.contains(s) {
                                    let i = choose|i: int| 0 <= i < out@.len() && out@[i] == s;
                                    assert(i < prev_out.len() || s == slot);
                                }
                            }
                        } else if s < slot {
                            assert(reg.free_list().contains(s));
                            assert(!out@.contains(s)) by {
                                if out@.contains(s) {
                                    let i = choose|i: int| 0 <= i < out@.len() && out@[i] == s;
                                    assert(i < prev_out.len() || s == slot);
                                    assert(s < prev_cursor || s == slot);
                                }
                            }
                        } else {
                            assert(s == slot);
                            assert(out@.contains(slot) <==> reg.live(slot) && slot_matches(
                                *reg,
                                req@,
                                slot,
                            )) by {
                                if reg.live(slot) && slot_matches(*reg, req@, slot) {
                                    assert(out@[out@.len() - 1] == slot);
                                } else if out@.contains(slot) {
                                    let i = choose|i: int| 0 <= i < out@.len() && out@[i] == slot;
                                    if i < prev_out.len() {
                                        assert(prev_out.contains(slot));
                                        assert(slot < prev_cursor);
                                    }
                                }
                            }
                        }
                    }
                }
            },
        }
    }
}

/// Linear scan for `key` in a registry's key list.
pub(crate) fn find_key(keys: &Vec<u64>, key: u64) -> (r: Option<usize>)
    ensures
        match r {
            Some(at) => at < keys@.len() && keys@[at as int] == key,
            None => !keys@.contains(key),
        },
{
    let mut at: usize = 0;
    while at < keys.len()
        invariant
            at <= keys@.len(),
            forall|i: int| 0 <= i < at ==> keys@[i] != key,
        decreases keys@.len() - at,
    {
        if keys[at] == key {
            return Some(at);
        }
        at += 1;
    }
    None
}

/// Linear scan for `slot` in a skip list.
fn slot_list_contains(list: &Vec<usize>, slot: usize) -> (r: bool)
    ensures
        r == list@.contains(slot),
{
    let mut at: usize = 0;
    while at < list.len()
        invariant
            at <= list@.len(),
            forall|i: int| 0 <= i < at ==> list@[i] != slot,
        decreases list@.len() - at,
    {
        if list[at] == slot {
            return true;
        }
        at += 1;
    }
    false
}

/// Linear scan for `slot` in the free list.
fn free_list_contains(free: &VecDeque<usize>, slot: usize) -> (r: bool)
    ensures
        r == free@.contains(slot),
{
    let mut at: usize = 0;
    while at < free.len()
        invariant
            at <= free@.len(),
            forall|i: int| 0 <= i < at ==> free@[i] != slot,
        decreases free@.len() - at,
    {
        if free[at] == slot {
            return true;
        }
        at += 1;
    }
    false
}

} // verus!

//! A little entity component system: a single-process data store that
//! associates typed records ("components") with lightweight generational
//! handles ("entities"), and answers intersection queries over the set of
//! entities that possess every component type in a requested list.

use vstd::prelude::*;

pub mod component;
pub mod join;

use crate::component::ComponentStorage;
use crate::component::GenericComponentStorage;

verus! {

/// A handle to an entity living in a `World`. Two handles are equal iff both
/// fields match; a handle is alive iff the world's generation counter at
/// `index` equals `generation`.
#[derive(Clone, Copy, Debug, PartialEq, Eq, Structural)]
pub struct Entity {
    pub index: usize,
    pub generation: u32,
}

/// The runtime identity of a component type: the registry's lookup key,
/// issued by `World::register_component` and carrying no other semantics.
#[derive(Clone, Copy, Debug, PartialEq, Eq, Structural)]
pub struct ComponentId {
    pub id: usize,
}

/// The recoverable errors of the library.
#[derive(Clone, Copy, Debug, PartialEq, Eq, Structural)]
pub enum Error {
    /// The operation was given a handle whose index is known but whose
    /// generation no longer matches the entity table.
    DeadEntityAccess(Entity),
    /// The operation named a component type absent from the registry.
    UnregisteredComponentAccess,
}

/// A collection of entities and components: the facade owning the entity
/// table (a generation counter per slot plus a LIFO freelist of reclaimed
/// slots) and the registry of one storage per registered component type.
pub struct World<T> {
    components: Vec<ComponentStorage<T>>,
    entities: Vec<u32>,
    dead: Vec<usize>,
}

impl<T> World<T> {
    /// The entity table: one generation counter per slot index.
    pub closed spec fn generations(self) -> Seq<u32> {
        self.entities@
    }

    /// The LIFO freelist of reclaimed slot indices.
    pub closed spec fn freelist(self) -> Seq<usize> {
        self.dead@
    }

    /// The registered storages, indexed by component identity.
    pub closed spec fn storages(self) -> Seq<ComponentStorage<T>> {
        self.components@
    }

    /// How many component types have been registered.
    pub open spec fn num_registered(self) -> nat {
        self.storages().len()
    }

    /// True iff `c` names a registered component type.
    pub open spec fn registered(self, c: ComponentId) -> bool {
        c.id < self.num_registered()
    }

    /// The slot sequence of the storage registered under `c`.
    pub open spec fn storage_view(self, c: ComponentId) -> Seq<Option<T>>
        recommends
            self.registered(c),
    {
        self.storages()[c.id as int]@
    }

    /// The component of type `c` at entity index `i`, or `None` when absent.
    pub open spec fn component_at(self, c: ComponentId, i: int) -> Option<T>
        recommends
            self.registered(c),
    {
        ComponentStorage::<T>::slot(self.storage_view(c), i)
    }

    /// True iff `c` is registered and holds a value at entity index `i`.
    pub open spec fn has_component(self, c: ComponentId, i: int) -> bool {
        self.registered(c) && self.component_at(c, i) is Some
    }

    /// True iff the handle's generation matches the entity table.
    pub open spec fn alive(self, e: Entity) -> bool {
        e.index < self.generations().len() && self.generations()[e.index as int] == e.generation
    }

    /// True iff the world covers the handle: its slot exists and its
    /// generation does not exceed the table's counter at that slot. Every
    /// handle the world has ever issued is covered, inductively: `add_entity`
    /// returns a covered handle and preserves coverage, and every other
    /// operation's contract states the generation table unchanged, which
    /// preserves coverage verbatim (`lemma_unchanged_generations_preserve_coverage`).
    /// "Covered" is therefore the contract-level reading of "a handle issued
    /// at some point in this world's history".
    pub open spec fn covers(self, h: Entity) -> bool {
        h.index < self.generations().len() && h.generation <= self.generations()[h.index as int]
    }

    /// Well-formedness: freelist entries are distinct allocated slots whose
    /// generation can still grow, and no storage tracks more slots than the
    /// entity table has.
    pub open spec fn wf(self) -> bool {
        &&& forall|k: int| 0 <= k < self.freelist().len()
            ==> (#[trigger] self.freelist()[k]) < self.generations().len()
        &&& forall|k: int| 0 <= k < self.freelist().len()
            ==> self.generations()[#[trigger] self.freelist()[k] as int] < u32::MAX
        &&& forall|k1: int, k2: int| 0 <= k1 < k2 < self.freelist().len()
            ==> self.freelist()[k1] != self.freelist()[k2]
        &&& forall|c: int| 0 <= c < self.storages().len()
            ==> (#[trigger] self.storages()[c])@.len() <= self.generations().len()
    }

    pub fn new() -> (w: World<T>)
        ensures
            w.wf(),
            w.generations() == Seq::<u32>::empty(),
            w.freelist() == Seq::<usize>::empty(),
            w.num_registered() == 0,
    {
        World { components: Vec::new(), entities: Vec::new(), dead: Vec::new() }
    }

    /// Registers a new component type, issuing a fresh identity backed by an
    /// empty storage. Every call issues a distinct identity, so an earlier
    /// registration is never replaced.
    pub fn register_component(&mut self) -> (c: ComponentId)
        requires
            old(self).wf(),
        ensures
            final(self).wf(),
            c == (ComponentId { id: old(self).num_registered() as usize }),
            final(self).num_registered() == old(self).num_registered() + 1,
            final(self).storage_view(c) == Seq::<Option<T>>::empty(),
            forall|d: ComponentId| old(self).registered(d)
                ==> final(self).storage_view(d) == old(self).storage_view(d),
            final(self).generations() == old(self).generations(),
            final(self).freelist() == old(self).freelist(),
    {
        let c = ComponentId { id: self.components.len() };
        let s = ComponentStorage::new();
        self.components.push(s);
        proof {
            assert(self.freelist() == old(self).freelist());
            assert(self.generations() == old(self).generations());
            assert forall|ci: int| 0 <= ci < self.storages().len() implies (
            #[trigger] self.storages()[ci])@.len() <= self.generations().len() by {
                if ci < old(self).storages().len() {
                    assert(old(self).storages()[ci]@.len() <= old(self).generations().len());
                }
            }
        }
        c
    }

    /// Allocates a new entity: reuses the most recently reclaimed slot,
    /// incrementing its generation, or appends a fresh slot at generation 0.
    /// Generations at every other slot are unchanged, so no counter ever
    /// decreases; and the returned handle differs from every handle the world
    /// covered before the call — a reused slot's counter strictly increases
    /// and a fresh slot lies beyond every covered index — so a released
    /// handle can never match a newly issued one.
    pub fn add_entity(&mut self) -> (r: EntityEntry)
        requires
            old(self).wf(),
        ensures
            final(self).wf(),
            final(self).alive(r.e),
            final(self).covers(r.e),
            forall|h: Entity| old(self).covers(h) ==> final(self).covers(h),
            forall|h: Entity| old(self).covers(h) ==> r.e != h,
            final(self).num_registered() == old(self).num_registered(),
            forall|d: ComponentId| old(self).registered(d)
                ==> final(self).storage_view(d) == old(self).storage_view(d),
            forall|i: int| 0 <= i < old(self).generations().len()
                ==> old(self).generations()[i] <= #[trigger] final(self).generations()[i],
            if old(self).freelist().len() > 0 {
                let i = old(self).freelist().last();
                &&& r.e == (Entity {
                    index: i,
                    generation: (old(self).generations()[i as int] + 1) as u32,
                })
                &&& final(self).generations() == old(self).generations().update(
                    i as int,
                    (old(self).generations()[i as int] + 1) as u32,
                )
                &&& final(self).freelist() == old(self).freelist().drop_last()
            } else {
                &&& r.e == (Entity { index: old(self).generations().len() as usize, generation: 0 })
                &&& final(self).generations() == old(self).generations().push(0)
                &&& final(self).freelist() == old(self).freelist()
            },
    {
        if let Some(index) = self.dead.pop() {
            let generation = self.entities[index] + 1;
            self.entities[index] = generation;
            proof {
                let pre = *old(self);
                let last = pre.freelist().len() - 1;
                assert(self.freelist() == pre.freelist().drop_last());
                assert(self.generations() == pre.generations().update(
                    index as int,
                    generation,
                ));
                assert(self.storages() == pre.storages());
                assert forall|k: int| 0 <= k < self.freelist().len() implies
                    self.generations()[#[trigger] self.freelist()[k] as int] < u32::MAX by {
                    assert(pre.freelist()[k] != pre.freelist()[last]);
                    assert(pre.generations()[pre.freelist()[k] as int] < u32::MAX);
                }
                assert forall|h: Entity| pre.covers(h) implies self.covers(h) && (Entity {
                    index,
                    generation,
                }) != h by {
                    if h.index == index {
                        assert(h.generation <= pre.generations()[index as int]);
                    }
                }
            }
            EntityEntry { e: Entity { index, generation } }
        } else {
            let index = self.entities.len();
            self.entities.push(0);
            proof {
                assert(self.freelist() == old(self).freelist());
                assert(self.generations() == old(self).generations().push(0));
                assert(self.storages() == old(self).storages());
                assert forall|h: Entity| old(self).covers(h) implies self.covers(h) && (Entity {
                    index,
                    generation: 0u32,
                }) != h by {
                    assert(h.index < old(self).generations().len());
                }
            }
            EntityEntry { e: Entity { index, generation: 0 } }
        }
    }
}

impl<T> World<T> {
    /// What a component lookup for `e` and `c` must return: an absent result
    /// for a never-allocated index, `DeadEntityAccess` for a stale
    /// generation, `UnregisteredComponentAccess` for an unknown component
    /// type, and otherwise the slot's content.
    pub open spec fn lookup_component(self, e: Entity, c: ComponentId) -> Result<Option<T>, Error> {
        if e.index >= self.generations().len() {
            Ok(None)
        } else if self.generations()[e.index as int] != e.generation {
            Err(Error::DeadEntityAccess(e))
        } else if !self.registered(c) {
            Err(Error::UnregisteredComponentAccess)
        } else {
            Ok(self.component_at(c, e.index as int))
        }
    }

    /// The error an insert reports: `DeadEntityAccess` iff the handle is not
    /// alive, `UnregisteredComponentAccess` iff the entity is alive but the
    /// component type is unknown. Unlike a read or a removal, an insert
    /// returns no value in which an absent slot could be reported, so a
    /// never-allocated index is refused as a dead-handle access rather than
    /// silently ignored.
    pub open spec fn insert_err(self, e: Entity, c: ComponentId, err: Error) -> bool {
        match err {
            Error::DeadEntityAccess(de) => de == e && !self.alive(e),
            Error::UnregisteredComponentAccess => self.alive(e) && !self.registered(c),
        }
    }

    /// How a successful `insert_component` changes the world: only the slot
    /// sequence registered under `c` changes, and it changes exactly by
    /// placing `v` at the entity's index.
    pub open spec fn insert_outcome(self, post: World<T>, e: Entity, c: ComponentId, v: T) -> bool {
        &&& post.generations() == self.generations()
        &&& post.freelist() == self.freelist()
        &&& post.num_registered() == self.num_registered()
        &&& post.storage_view(c) == ComponentStorage::<T>::inserted(
            self.storage_view(c),
            e.index as int,
            v,
        )
        &&& forall|d: ComponentId| d.id != c.id && self.registered(d)
            ==> post.storage_view(d) == self.storage_view(d)
    }

    /// How a successful `remove_component` changes the world: only the slot
    /// sequence registered under `c` changes, and it changes exactly by
    /// clearing the entity's index.
    pub open spec fn remove_outcome(self, post: World<T>, e: Entity, c: ComponentId) -> bool {
        &&& post.generations() == self.generations()
        &&& post.freelist() == self.freelist()
        &&& post.num_registered() == self.num_registered()
        &&& post.storage_view(c) == ComponentStorage::<T>::removed(
            self.storage_view(c),
            e.index as int,
        )
        &&& forall|d: ComponentId| d.id != c.id && self.registered(d)
            ==> post.storage_view(d) == self.storage_view(d)
    }

    /// An entry for the given handle, or `None` when the handle is no longer
    /// alive or its index was never allocated.
    pub fn entity(&self, e: Entity) -> (r: Option<EntityEntry>)
        ensures
            match r {
                Some(en) => self.alive(e) && en.e == e,
                None => !self.alive(e),
            },
    {
        if e.index < self.entities.len() && self.entities[e.index] == e.generation {
            Some(EntityEntry { e })
        } else {
            None
        }
    }

    /// Removes an entity: a no-op on a handle that is not alive; otherwise
    /// purges the entity's index from every registered storage and reclaims
    /// the index on the freelist. The index is not reclaimed when it is
    /// already on the freelist (a handle can be removed twice before reuse)
    /// or when its generation counter can no longer grow; such a slot is
    /// retired instead of reused.
    pub fn remove_entity(&mut self, e: Entity)
        requires
            old(self).wf(),
        ensures
            final(self).wf(),
            final(self).generations() == old(self).generations(),
            final(self).num_registered() == old(self).num_registered(),
            if old(self).alive(e) {
                &&& forall|d: ComponentId| old(self).registered(d)
                    ==> final(self).storage_view(d) == ComponentStorage::<T>::removed(
                        old(self).storage_view(d),
                        e.index as int,
                    )
                &&& final(self).freelist() == if old(self).freelist().contains(e.index)
                    || e.generation == u32::MAX {
                    old(self).freelist()
                } else {
                    old(self).freelist().push(e.index)
                }
            } else {
                *final(self) == *old(self)
            },
    {
        if e.index < self.entities.len() && self.entities[e.index] == e.generation {
            let n = self.components.len();
            let mut k: usize = 0;
            while k < n
                invariant
                    k <= n,
                    n == self.storages().len(),
                    self.generations() == old(self).generations(),
                    self.freelist() == old(self).freelist(),
                    self.storages().len() == old(self).storages().len(),
                    forall|m: int| 0 <= m < k ==> (#[trigger] self.storages()[m])@
                        == ComponentStorage::<T>::removed(old(self).storages()[m]@, e.index as int),
                    forall|m: int| k <= m < n ==> #[trigger] self.storages()[m]
                        == old(self).storages()[m],
                decreases n - k,
            {
                let s = &mut self.components[k];
                let _ = s.remove(e.index);
                k += 1;
            }
            if e.generation < u32::MAX {
                let d = self.dead.len();
                let mut m: usize = 0;
                let mut found = false;
                while m < d
                    invariant
                        m <= d,
                        d == self.freelist().len(),
                        found ==> self.freelist().contains(e.index),
                        !found ==> forall|i: int| 0 <= i < m ==> self.freelist()[i] != e.index,
                    decreases d - m,
                {
                    if self.dead[m] == e.index {
                        found = true;
                    }
                    m += 1;
                }
                if !found {
                    proof {
                        assert(!old(self).freelist().contains(e.index));
                    }
                    self.dead.push(e.index);
                    proof {
                        assert(self.freelist() == old(self).freelist().push(e.index));
                        assert forall|k1: int, k2: int| 0 <= k1 < k2 < self.freelist().len()
                            implies self.freelist()[k1] != self.freelist()[k2] by {
                            if k2 < self.freelist().len() - 1 {
                                assert(old(self).freelist()[k1] != old(self).freelist()[k2]);
                            } else if old(self).freelist()[k1] == e.index {
                                assert(old(self).freelist().contains(e.index));
                            }
                        }
                    }
                } else {
                    proof {
                        assert(old(self).freelist().contains(e.index));
                    }
                }
            } else {
                proof {
                    assert(self.generations()[e.index as int] == u32::MAX);
                }
            }
        }
    }

    /// A shared reference to the storage registered under `c`.
    pub fn get_storage(&self, c: ComponentId) -> (r: Result<&ComponentStorage<T>, Error>)
        ensures
            match r {
                Ok(s) => self.registered(c) && *s == self.storages()[c.id as int],
                Err(err) => !self.registered(c) && err == Error::UnregisteredComponentAccess,
            },
    {
        if c.id < self.components.len() {
            Ok(&self.components[c.id])
        } else {
            Err(Error::UnregisteredComponentAccess)
        }
    }

    /// An exclusive reference to the storage registered under `c`; the world
    /// afterwards differs from the old one exactly by what the caller writes
    /// through the reference.
    pub fn get_storage_mut(&mut self, c: ComponentId) -> (r: Result<&mut ComponentStorage<T>, Error>)
        ensures
            match r {
                Ok(s) => old(self).registered(c) && *s == old(self).storages()[c.id as int]
                    && final(self).storages() == old(self).storages().update(
                    c.id as int,
                    *final(s),
                ) && final(self).generations() == old(self).generations() && final(self).freelist()
                    == old(self).freelist(),
                Err(err) => !old(self).registered(c) && err == Error::UnregisteredComponentAccess
                    && *final(self) == *old(self),
            },
    {
        if c.id < self.components.len() {
            Ok(&mut self.components[c.id])
        } else {
            Err(Error::UnregisteredComponentAccess)
        }
    }

    /// Reads the component of type `c` attached to `e`, as
    /// `lookup_component` prescribes.
    pub fn get_component(&self, e: Entity, c: ComponentId) -> (r: Result<Option<&T>, Error>)
        ensures
            match r {
                Ok(Some(v)) => self.lookup_component(e, c) == Ok::<Option<T>, Error>(Some(*v)),
                Ok(None) => self.lookup_component(e, c) == Ok::<Option<T>, Error>(None),
                Err(err) => self.lookup_component(e, c) == Err::<Option<T>, Error>(err),
            },
    {
        if e.index >= self.entities.len() {
            return Ok(None);
        }
        if self.entities[e.index] != e.generation {
            return Err(Error::DeadEntityAccess(e));
        }
        match self.get_storage(c) {
            Err(err) => Err(err),
            Ok(s) => match s.get(e.index) {
                Some(v) => Ok(Some(v)),
                None => Ok(None),
            },
        }
    }

    /// Attaches `value` to `e` as its component of type `c`, overwriting any
    /// existing one; fails iff the handle is not alive or `c` is not
    /// registered, leaving the world unchanged then. A never-allocated index
    /// is refused as a dead-handle access: an insert, unlike a read or a
    /// removal, has no absent result with which to answer it.
    pub fn insert_component(&mut self, e: Entity, c: ComponentId, value: T) -> (r: Result<
        (),
        Error,
    >)
        requires
            old(self).wf(),
        ensures
            final(self).wf(),
            match r {
                Ok(_) => old(self).alive(e) && old(self).registered(c) && old(self).insert_outcome(
                    *final(self),
                    e,
                    c,
                    value,
                ),
                Err(err) => *final(self) == *old(self) && old(self).insert_err(e, c, err),
            },
    {
        if e.index >= self.entities.len() || e.generation != self.entities[e.index] {
            return Err(Error::DeadEntityAccess(e));
        }
        match self.get_storage_mut(c) {
            Err(err) => Err(err),
            Ok(s) => {
                s.insert(e.index, value);
                proof {
                    assert forall|ci: int| 0 <= ci < self.storages().len() implies (
                    #[trigger] self.storages()[ci])@.len() <= self.generations().len() by {
                        assert(old(self).storages()[ci]@.len() <= old(self).generations().len());
                    }
                }
                Ok(())
            },
        }
    }

    /// Detaches and returns the component of type `c` attached to `e`, if
    /// any. The result is exactly what `lookup_component` prescribes: an
    /// absent result for a never-allocated index, `DeadEntityAccess` only for
    /// an in-range stale generation, `UnregisteredComponentAccess` for an
    /// unknown type on a live entity. The world changes only on a live
    /// entity with a registered type.
    pub fn remove_component(&mut self, e: Entity, c: ComponentId) -> (r: Result<Option<T>, Error>)
        requires
            old(self).wf(),
        ensures
            final(self).wf(),
            r == old(self).lookup_component(e, c),
            if old(self).alive(e) && old(self).registered(c) {
                old(self).remove_outcome(*final(self), e, c)
            } else {
                *final(self) == *old(self)
            },
    {
        if e.index >= self.entities.len() {
            return Ok(None);
        }
        if e.generation != self.entities[e.index] {
            return Err(Error::DeadEntityAccess(e));
        }
        match self.get_storage_mut(c) {
            Err(err) => Err(err),
            Ok(s) => {
                let v = s.remove(e.index);
                proof {
                    assert forall|ci: int| 0 <= ci < self.storages().len() implies (
                    #[trigger] self.storages()[ci])@.len() <= self.generations().len() by {
                        assert(old(self).storages()[ci]@.len() <= old(self).generations().len());
                    }
                }
                Ok(v)
            },
        }
    }
}

impl<T> World<T> {
    /// True iff the entity index `i` has a present component for every
    /// component type in `comps`.
    pub open spec fn matches_all(self, comps: Seq<ComponentId>, i: int) -> bool {
        forall|k: int| 0 <= k < comps.len() ==> self.has_component(#[trigger] comps[k], i)
    }

    /// The join query: every entity index possessing all the component types
    /// in `comps`, in strictly ascending order. Fails iff some requested type
    /// is not registered.
    pub fn iter(&self, comps: &Vec<ComponentId>) -> (r: Result<Vec<usize>, Error>)
        requires
            self.wf(),
            comps@.len() >= 1,
            forall|k1: int, k2: int| 0 <= k1 < k2 < comps@.len() ==> comps@[k1] != comps@[k2],
        ensures
            match r {
                Ok(v) => {
                    &&& forall|k: int| 0 <= k < comps@.len() ==> self.registered(#[trigger] comps@[k])
                    &&& forall|m: int| 0 <= m < v@.len() ==> self.matches_all(
                        comps@,
                        #[trigger] v@[m] as int,
                    )
                    &&& forall|m1: int, m2: int| 0 <= m1 < m2 < v@.len() ==> v@[m1] < v@[m2]
                    &&& forall|i: usize| self.matches_all(comps@, i as int) ==> v@.contains(i)
                },
                Err(err) => err == Error::UnregisteredComponentAccess && exists|k: int|
                    0 <= k < comps@.len() && !self.registered(comps@[k]),
            },
    {
        let n = comps.len();
        let mut ids: Vec<usize> = Vec::new();
        let mut k: usize = 0;
        while k < n
            invariant
                k <= n,
                n == comps@.len(),
                ids@.len() == k,
                forall|m: int| 0 <= m < k ==> #[trigger] ids@[m] == comps@[m].id,
                forall|m: int| 0 <= m < k ==> self.registered(#[trigger] comps@[m]),
            decreases n - k,
        {
            let c = comps[k];
            if c.id >= self.components.len() {
                return Err(Error::UnregisteredComponentAccess);
            }
            ids.push(c.id);
            k += 1;
        }
        let v = crate::join::join_indices(&self.components, &ids);
        proof {
            assert forall|i: int| crate::join::matches_all(self.storages(), ids@, i)
                == self.matches_all(comps@, i) by {
                if crate::join::matches_all(self.storages(), ids@, i) {
                    assert forall|kk: int| 0 <= kk < comps@.len() implies self.has_component(
                        #[trigger] comps@[kk],
                        i,
                    ) by {
                        assert(self.storages()[ids@[kk] as int].occupied(i));
                    }
                }
                if self.matches_all(comps@, i) {
                    assert forall|kk: int| 0 <= kk < ids@.len() implies #[trigger] self.storages()[ids@[kk] as int].occupied(i) by {
                        assert(self.has_component(comps@[kk], i));
                    }
                }
            }
        }
        Ok(v)
    }

    /// What a successful `iter_entities` returns: the handles of exactly the
    /// entities possessing all the component types in `comps`, in strictly
    /// ascending index order, each alive and carrying its current generation.
    pub open spec fn join_output(self, comps: Seq<ComponentId>, v: Seq<Entity>) -> bool {
        &&& forall|k: int| 0 <= k < comps.len() ==> self.registered(#[trigger] comps[k])
        &&& forall|m: int| 0 <= m < v.len() ==> self.matches_all(
            comps,
            (#[trigger] v[m]).index as int,
        )
        &&& forall|m: int| 0 <= m < v.len() ==> self.alive(#[trigger] v[m])
        &&& forall|m1: int, m2: int| 0 <= m1 < m2 < v.len() ==> v[m1].index < v[m2].index
        &&& forall|i: usize| self.matches_all(comps, i as int) ==> exists|m: int|
            0 <= m < v.len() && (#[trigger] v[m]).index == i
    }

    /// The join query with entity identity: the handles of every entity
    /// possessing all the component types in `comps`, in strictly ascending
    /// index order, each carrying its current generation. Fails iff some
    /// requested type is not registered.
    pub fn iter_entities(&self, comps: &Vec<ComponentId>) -> (r: Result<Vec<Entity>, Error>)
        requires
            self.wf(),
            comps@.len() >= 1,
            forall|k1: int, k2: int| 0 <= k1 < k2 < comps@.len() ==> comps@[k1] != comps@[k2],
        ensures
            match r {
                Ok(v) => self.join_output(comps@, v@),
                Err(err) => err == Error::UnregisteredComponentAccess && exists|k: int|
                    0 <= k < comps@.len() && !self.registered(comps@[k]),
            },
    {
        let idxs = match self.iter(comps) {
            Err(err) => {
                return Err(err);
            },
            Ok(idxs) => idxs,
        };
        proof {
            assert forall|j: int| 0 <= j < idxs@.len() implies #[trigger] idxs@[j]
                < self.generations().len() by {
                assert(self.matches_all(comps@, idxs@[j] as int));
                assert(self.has_component(comps@[0], idxs@[j] as int));
                assert(self.storages()[comps@[0].id as int]@.len() <= self.generations().len());
            }
        }
        let n = idxs.len();
        let mut v: Vec<Entity> = Vec::new();
        let mut m: usize = 0;
        while m < n
            invariant
                m <= n,
                n == idxs@.len(),
                v@.len() == m,
                self.wf(),
                comps@.len() >= 1,
                forall|k: int| 0 <= k < comps@.len() ==> self.registered(#[trigger] comps@[k]),
                forall|j: int| 0 <= j < n ==> self.matches_all(comps@, #[trigger] idxs@[j] as int),
                forall|j: int| 0 <= j < n ==> #[trigger] idxs@[j] < self.generations().len(),
                forall|j: int| 0 <= j < m ==> (#[trigger] v@[j]).index == idxs@[j],
                forall|j: int| 0 <= j < m ==> self.alive(#[trigger] v@[j]),
            decreases n - m,
        {
            let i = idxs[m];
            v.push(Entity { index: i, generation: self.entities[i] });
            m += 1;
        }
        proof {
            assert forall|i: usize| self.matches_all(comps@, i as int) implies exists|mm: int|
                0 <= mm < v@.len() && (#[trigger] v@[mm]).index == i by {
                assert(idxs@.contains(i));
                let mm = choose|mm: int| 0 <= mm < idxs@.len() && idxs@[mm] == i;
                assert(v@[mm].index == i);
            }
        }
        Ok(v)
    }
}

/// An entry to an entity in a `World`: a convenience wrapper around the
/// entity's handle for chaining component inserts and removes.
#[derive(Clone, Copy, Debug, PartialEq, Eq, Structural)]
pub struct EntityEntry {
    pub e: Entity,
}

impl EntityEntry {
    pub fn entity(&self) -> (e: Entity)
        ensures
            e == self.e,
    {
        self.e
    }

    /// Inserts a component for this entry's entity, replacing any existing
    /// one; hands the entry back on success so inserts can be chained.
    pub fn insert<T>(&self, world: &mut World<T>, c: ComponentId, value: T) -> (r: Result<
        EntityEntry,
        Error,
    >)
        requires
            old(world).wf(),
        ensures
            final(world).wf(),
            match r {
                Ok(en) => en == *self && old(world).alive(self.e) && old(world).registered(c)
                    && old(world).insert_outcome(*final(world), self.e, c, value),
                Err(err) => *final(world) == *old(world) && old(world).insert_err(self.e, c, err),
            },
    {
        match world.insert_component(self.e, c, value) {
            Ok(_) => Ok(*self),
            Err(err) => Err(err),
        }
    }

    /// Removes this entry's entity's component of type `c`, returning the
    /// component that was removed, if any; the result and the world's change
    /// are those of `World::remove_component`.
    pub fn remove<T>(&self, world: &mut World<T>, c: ComponentId) -> (r: Result<Option<T>, Error>)
        requires
            old(world).wf(),
        ensures
            final(world).wf(),
            r == old(world).lookup_component(self.e, c),
            if old(world).alive(self.e) && old(world).registered(c) {
                old(world).remove_outcome(*final(world), self.e, c)
            } else {
                *final(world) == *old(world)
            },
    {
        world.remove_component(self.e, c)
    }
}

/// Coverage of issued handles is preserved by every step that leaves the
/// generation table unchanged — which the contracts of `register_component`,
/// `remove_entity` and the component operations all state. Together with
/// `add_entity`'s clauses (its handle is covered, coverage is preserved, and
/// its handle differs from every handle covered before) this closes the
/// induction: every handle the world ever issued stays covered, and no later
/// `add_entity` can return it again.
pub proof fn lemma_unchanged_generations_preserve_coverage<T>(
    pre: World<T>,
    post: World<T>,
    h: Entity,
)
    requires
        pre.covers(h),
        post.generations() == pre.generations(),
    ensures
        post.covers(h),
{
}

/// Round trip, inserting: a world produced by a successful
/// `insert_component` of `v` holds `v` at that slot, and `get_component`
/// there returns exactly `Ok(Some(v))`.
pub proof fn lemma_insert_then_get<T>(pre: World<T>, post: World<T>, e: Entity, c: ComponentId, v: T)
    requires
        pre.alive(e),
        pre.registered(c),
        pre.insert_outcome(post, e, c, v),
    ensures
        post.component_at(c, e.index as int) == Some(v),
        post.lookup_component(e, c) == Ok::<Option<T>, Error>(Some(v)),
{
    assert(post.alive(e));
    assert(post.component_at(c, e.index as int) == Some(v));
}

/// Round trip, removing: a world produced by a successful
/// `remove_component` holds nothing at that slot, and `get_component` there
/// returns exactly `Ok(None)`.
pub proof fn lemma_remove_then_get<T>(pre: World<T>, post: World<T>, e: Entity, c: ComponentId)
    requires
        pre.alive(e),
        pre.registered(c),
        pre.remove_outcome(post, e, c),
    ensures
        post.component_at(c, e.index as int) is None,
        post.lookup_component(e, c) == Ok::<Option<T>, Error>(None),
{
    assert(post.alive(e));
    assert(post.component_at(c, e.index as int) is None);
}

/// Join correctness, restated over one index: an entity index appears in a
/// successful join output iff it has a present component for every requested
/// type.
pub proof fn lemma_join_membership<T>(w: World<T>, comps: Seq<ComponentId>, v: Seq<Entity>, i: usize)
    requires
        w.join_output(comps, v),
    ensures
        w.matches_all(comps, i as int) <==> exists|m: int| 0 <= m < v.len() && (#[trigger] v[m]).index == i,
{
    if exists|m: int| 0 <= m < v.len() && (#[trigger] v[m]).index == i {
        let m = choose|m: int| 0 <= m < v.len() && (#[trigger] v[m]).index == i;
        assert(w.matches_all(comps, v[m].index as int));
    }
}

} // verus!

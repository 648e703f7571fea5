use vstd::prelude::*;

verus! {

/// Dense storage for the components of one type: one optional slot per entity
/// index, auto-extended with empty slots when a value lands beyond the end.
/// Indices past the end of the sequence are implicitly empty.
pub struct ComponentStorage<T> {
    components: Vec<Option<T>>,
}

impl<T> View for ComponentStorage<T> {
    type V = Seq<Option<T>>;

    closed spec fn view(&self) -> Seq<Option<T>> {
        self.components@
    }
}

impl<T> ComponentStorage<T> {
    /// The slot at index `i` of a slot sequence; anything outside the sequence
    /// is implicitly empty.
    pub open spec fn slot(s: Seq<Option<T>>, i: int) -> Option<T> {
        if 0 <= i < s.len() {
            s[i]
        } else {
            None
        }
    }

    /// True iff the storage holds a value at index `i`.
    pub open spec fn present(self, i: int) -> bool {
        Self::slot(self@, i) is Some
    }

    /// The slot sequence after placing `v` at index `i`, extending the
    /// sequence with empty slots when `i` lies beyond its end.
    pub open spec fn inserted(s: Seq<Option<T>>, i: int, v: T) -> Seq<Option<T>>
        recommends
            0 <= i,
    {
        Seq::new(
            if i + 1 > s.len() {
                (i + 1) as nat
            } else {
                s.len()
            },
            |j: int| if j == i {
                Some(v)
            } else {
                Self::slot(s, j)
            },
        )
    }

    /// The slot sequence after clearing the slot at index `i`.
    pub open spec fn removed(s: Seq<Option<T>>, i: int) -> Seq<Option<T>> {
        if 0 <= i < s.len() {
            s.update(i, None)
        } else {
            s
        }
    }

    pub fn new() -> (s: ComponentStorage<T>)
        ensures
            s@ == Seq::<Option<T>>::empty(),
    {
        ComponentStorage { components: Vec::new() }
    }

    pub fn contains(&self, entity: usize) -> (b: bool)
        ensures
            b == self.present(entity as int),
    {
        entity < self.components.len() && self.components[entity].is_some()
    }

    /// Places `value` at index `entity`, overwriting any existing value and
    /// extending the sequence (with empty slots) when the index lies beyond
    /// its current length. Always succeeds.
    pub fn insert(&mut self, entity: usize, value: T)
        requires
            entity < usize::MAX,
        ensures
            final(self)@ == Self::inserted(old(self)@, entity as int, value),
    {
        if entity < self.components.len() {
            self.components[entity] = Some(value);
            proof {
                assert(self@ =~= Self::inserted(old(self)@, entity as int, value));
            }
        } else {
            while self.components.len() < entity
                invariant
                    entity < usize::MAX,
                    old(self)@.len() <= self@.len() <= entity,
                    forall|j: int| 0 <= j < old(self)@.len() ==> self@[j] == old(self)@[j],
                    forall|j: int| old(self)@.len() <= j < self@.len() ==> self@[j] is None,
                decreases entity - self@.len(),
            {
                self.components.push(None);
            }
            self.components.push(Some(value));
            proof {
                assert(self@ =~= Self::inserted(old(self)@, entity as int, value));
            }
        }
    }

    /// Clears the slot at index `entity` if present, returning the prior
    /// value, or `None` if the slot is absent or out of range.
    pub fn remove(&mut self, entity: usize) -> (r: Option<T>)
        ensures
            r == Self::slot(old(self)@, entity as int),
            final(self)@ == Self::removed(old(self)@, entity as int),
    {
        if entity < self.components.len() {
            self.components[entity].take()
        } else {
            None
        }
    }

    /// A reference to the value at index `entity`, if present.
    pub fn get(&self, entity: usize) -> (r: Option<&T>)
        ensures
            match r {
                Some(v) => Self::slot(self@, entity as int) == Some(*v),
                None => Self::slot(self@, entity as int) is None,
            },
    {
        if entity < self.components.len() {
            match &self.components[entity] {
                Some(v) => Some(v),
                None => None,
            }
        } else {
            None
        }
    }

    /// A mutable reference to the value at index `entity`, if present.
    pub fn get_mut(&mut self, entity: usize) -> (r: Option<&mut T>)
        ensures
            match r {
                Some(m) => old(self).present(entity as int)
                    && Self::slot(old(self)@, entity as int) == Some(*m)
                    && final(self)@ == old(self)@.update(entity as int, Some(*final(m))),
                None => !old(self).present(entity as int) && final(self)@ == old(self)@,
            },
    {
        if entity < self.components.len() {
            match &mut self.components[entity] {
                Some(m) => Some(m),
                None => None,
            }
        } else {
            None
        }
    }
}

/// The storage interface the registry and the join engine rely on,
/// independent of the stored component type: presence queries by index and
/// type-agnostic removal.
pub trait GenericComponentStorage: Sized {
    /// How many slots the storage currently tracks; every occupied index lies
    /// below this bound.
    spec fn slots(&self) -> nat;

    /// True iff the storage holds a value at index `i`.
    spec fn occupied(&self, i: int) -> bool;

    /// The smallest occupied index at or after `start`, or `None` when no
    /// occupied index at or after `start` exists.
    fn next_entry(&self, start: usize) -> (r: Option<usize>)
        ensures
            match r {
                Some(e) => start <= e && (e as int) < self.slots() && self.occupied(e as int)
                    && forall|j: int| start <= j < e ==> !self.occupied(j),
                None => forall|j: int| start <= j ==> !self.occupied(j),
            },
    ;

    /// Clears the slot at index `i`, leaving every other slot's occupancy as
    /// it was. Used for bulk cleanup on entity removal, irrespective of type.
    fn remove(&mut self, i: usize)
        ensures
            final(self).slots() == old(self).slots(),
            !final(self).occupied(i as int),
            forall|j: int| j != i ==> final(self).occupied(j) == old(self).occupied(j),
    ;
}

impl<T> GenericComponentStorage for ComponentStorage<T> {
    open spec fn slots(&self) -> nat {
        self@.len()
    }

    open spec fn occupied(&self, i: int) -> bool {
        self.present(i)
    }

    fn next_entry(&self, start: usize) -> (r: Option<usize>) {
        let n = self.components.len();
        let mut i: usize = start;
        while i < n
            invariant
                n == self@.len(),
                start <= i,
                forall|j: int| start <= j < i ==> !self.present(j),
            decreases n - i,
        {
            if self.components[i].is_some() {
                return Some(i);
            }
            i += 1;
        }
        None
    }

    fn remove(&mut self, i: usize) {
        let _ = self.remove(i);
    }
}

} // verus!

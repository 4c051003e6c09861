use crate::typed_index::TypeLabel;
use vstd::prelude::*;
use vstd::std_specs::convert::IntoSpec;

verus! {

pub type Index = usize;

/// Calls `Vec::capacity`. How much an allocator hands out is its own
/// business; the documentation promises only that it is no less than the
/// length.
#[verifier::external_body]
pub(crate) fn vec_capacity<T>(v: &Vec<T>) -> (c: usize)
    ensures
        c >= v@.len(),
{
    v.capacity()
}

/// `count * size` where that fits a `usize`, else the largest `usize`.
pub open spec fn saturating_bytes(count: int, size: int) -> int {
    if count * size <= usize::MAX {
        count * size
    } else {
        usize::MAX as int
    }
}

/// `a + b` where that fits a `usize`, else the largest `usize`.
pub open spec fn saturating_sum(a: int, b: int) -> int {
    if a + b <= usize::MAX {
        a + b
    } else {
        usize::MAX as int
    }
}

pub fn bytes_sum(a: usize, b: usize) -> (r: usize)
    ensures
        r == saturating_sum(a as int, b as int),
{
    match a.checked_add(b) {
        Some(sum) => sum,
        None => usize::MAX,
    }
}

/// More slots never take fewer bytes.
pub proof fn lemma_saturating_bytes_grow(size: int)
    requires
        size >= 0,
    ensures
        forall|a: int, b: int|
            0 <= a <= b ==> #[trigger] saturating_bytes(a, size) <= #[trigger] saturating_bytes(
                b,
                size,
            ),
{
    assert forall|a: int, b: int| 0 <= a <= b implies #[trigger] saturating_bytes(a, size)
        <= #[trigger] saturating_bytes(b, size) by {
        assert(a * size <= b * size) by (nonlinear_arith)
            requires
                0 <= a <= b,
                size >= 0,
        ;
    }
}

pub fn bytes_for(count: usize, size: usize) -> (r: usize)
    ensures
        r == saturating_bytes(count as int, size as int),
{
    match count.checked_mul(size) {
        Some(bytes) => bytes,
        None => usize::MAX,
    }
}

/// A pool that hands out indices and never takes one back: a removed
/// entry leaves a tombstone behind.
#[derive(Clone, Debug)]
pub struct Arena<T> {
    members: Vec<Item<T>>,
}

#[derive(Clone, Debug, PartialEq, Eq)]
pub enum ArenaError {
    IndexEmpty(String, Index),
    IndexOutOfBounds(Index, Index),
}

#[derive(Clone, Debug)]
pub enum Item<T> {
    Tombstone,
    Entry(T),
}

impl<T> Item<T> {
    pub open spec fn entry(self) -> Option<T> {
        match self {
            Item::Tombstone => None,
            Item::Entry(v) => Some(v),
        }
    }
}

/// The first index at or after `from` that holds an entry, or the length
/// where there is none.
pub open spec fn next_live<T>(s: Seq<Option<T>>, from: int) -> int
    decreases s.len() - from,
{
    if from < 0 || from >= s.len() {
        s.len() as int
    } else if s[from] is Some {
        from
    } else {
        next_live(s, from + 1)
    }
}

/// How many slots of `s` hold an entry.
pub open spec fn live_count<T>(s: Seq<Option<T>>) -> nat
    decreases s.len(),
{
    if s.len() == 0 {
        0
    } else {
        live_count(s.drop_last()) + if s.last() is Some { 1nat } else { 0nat }
    }
}

impl<T> View for Arena<T> {
    type V = Seq<Option<T>>;

    closed spec fn view(&self) -> Seq<Option<T>> {
        Seq::new(self.members@.len(), |i: int| self.members@[i].entry())
    }
}

impl<T> Default for Arena<T> {
    fn default() -> (r: Self)
        ensures
            r@ == Seq::<Option<T>>::empty(),
    {
        Arena::new()
    }
}

pub struct ArenaIterator<'a, T> {
    arena: &'a Arena<T>,
    index: Index,
}

impl<'a, T> ArenaIterator<'a, T> {
    /// The pool that is walked.
    pub closed spec fn arena(&self) -> Arena<T> {
        *self.arena
    }

    /// The index from which the search for the next entry starts.
    pub closed spec fn position(&self) -> int {
        self.index as int
    }

    /// Hands out the next live entry in index order, skipping tombstones.
    pub fn next(&mut self) -> (r: Option<&'a T>)
        ensures
            final(self).arena() == old(self).arena(),
            ({
                let s = old(self).arena()@;
                let j = next_live(s, old(self).position());
                if j < s.len() {
                    r == Some(&s[j]->Some_0) && final(self).position() == j + 1
                } else {
                    r is None && final(self).position() == s.len()
                }
            }),
    {
        let len = self.arena.members.len();
        if self.index > len {
            self.index = len;
        }
        while self.index < len
            invariant
                self.arena == old(self).arena,
                len == self.arena.members@.len(),
                self.index <= len,
                next_live(self.arena@, self.index as int) == next_live(
                    old(self).arena@,
                    old(self).index as int,
                ),
            decreases len - self.index,
        {
            if let Item::Entry(value) = &self.arena.members[self.index] {
                self.index += 1;
                return Some(value);
            }
            self.index += 1;
        }
        None
    }
}

pub struct ArenaIteratorMut<'a, T> {
    arena: &'a mut Arena<T>,
    index: Index,
}

impl<'a, T> ArenaIteratorMut<'a, T> {
    /// The pool that is walked, as it stands now.
    pub closed spec fn arena(&self) -> Arena<T> {
        *self.arena
    }

    /// The index from which the search for the next entry starts.
    pub closed spec fn position(&self) -> int {
        self.index as int
    }

    /// Hands out the next live entry in index order for writing; what the
    /// caller leaves in it is what the pool then holds there.
    pub fn next(&mut self) -> (r: Option<&mut T>)
        ensures
            ({
                let s = old(self).arena()@;
                let j = next_live(s, old(self).position());
                match r {
                    Some(v) => j < s.len() && s[j] == Some(*v) && final(self).position() == j + 1
                        && final(self).arena()@ == s.update(j, Some(*final(v))),
                    None => j == s.len() && final(self).position() == s.len() && final(self).arena()@ == s,
                }
            }),
    {
        let len = self.arena.members.len();
        let mut i = if self.index > len {
            len
        } else {
            self.index
        };
        while i < len && matches!(self.arena.members[i], Item::Tombstone)
            invariant
                *self == *old(self),
                len == self.arena.members@.len(),
                i <= len,
                next_live(self.arena@, i as int) == next_live(self.arena@, self.index as int),
            decreases len - i,
        {
            i += 1;
        }
        if i < len {
            self.index = i + 1;
            let ghost s = self.arena@;
            match &mut self.arena.members[i] {
                Item::Entry(value) => {
                    proof {
                        assert(s[i as int] == Some(*value));
                    }
                    Some(value)
                },
                Item::Tombstone => None,
            }
        } else {
            self.index = len;
            None
        }
    }
}

impl<T> Arena<T> {
    pub fn new() -> (r: Self)
        ensures
            r@ == Seq::<Option<T>>::empty(),
    {
        let mut members = Vec::new();
        members.reserve(1000);
        let r = Self { members };
        assert(r@ =~= Seq::<Option<T>>::empty());
        r
    }

    /// The number of indices handed out so far, tombstones included.
    pub fn capacity(&self) -> (r: usize)
        ensures
            r == self@.len(),
    {
        self.members.len()
    }

    /// The bytes that the live entries take.
    pub fn active_mem_usage(&self) -> (r: usize)
        ensures
            r == saturating_bytes(live_count(self@) as int, vstd::layout::size_of::<T>() as int),
    {
        let mut live: usize = 0;
        let mut i: usize = 0;
        while i < self.members.len()
            invariant
                i <= self.members@.len(),
                live == live_count(self@.take(i as int)),
                live <= i,
            decreases self.members@.len() - i,
        {
            assert(self@.take(i + 1).drop_last() =~= self@.take(i as int));
            if let Item::Entry(_) = &self.members[i] {
                live += 1;
            }
            i += 1;
        }
        assert(self@.take(i as int) =~= self@);
        bytes_for(live, core::mem::size_of::<T>())
    }

    /// The bytes that the pool has reserved, which is no less than what its
    /// slots take.
    pub fn mem_usage(&self) -> (r: usize)
        ensures
            exists|slots: int|
                slots >= self@.len() && r == saturating_bytes(
                    slots,
                    vstd::layout::size_of::<T>() as int,
                ),
    {
        let slots = vec_capacity(&self.members);
        let r = bytes_for(slots, core::mem::size_of::<T>());
        assert(slots >= self@.len() && r == saturating_bytes(
            slots as int,
            vstd::layout::size_of::<T>() as int,
        ));
        r
    }

    /// Reserves the next index, hands it to `value`, and stores what comes
    /// back under that index.
    pub fn add_with_id<S: Into<T>, F: FnOnce(Index) -> S>(&mut self, value: F) -> (id: Index)
        requires
            call_requires(value, (old(self)@.len() as usize,)),
        ensures
            id == old(self)@.len(),
            final(self)@.len() == id + 1,
            final(self)@.take(id as int) == old(self)@,
            final(self)@[id as int] is Some,
            exists|made: S| #[trigger]
                call_ensures(value, (id,), made) && (S::obeys_into_spec() ==> final(self)@[id as int] == Some(made.into_spec())),
    {
        let id = self.members.len();
        let made = value(id);
        let ghost kept = made;
        self.members.push(Item::Entry(made.into()));
        assert(self@.take(id as int) =~= old(self)@);
        assert(call_ensures(value, (id,), kept) && (S::obeys_into_spec() ==> self@[id as int]
            == Some(kept.into_spec())));
        id
    }

    /// Appends `value` and returns its index.
    pub fn add<S: Into<T>>(&mut self, value: S) -> (id: Index)
        ensures
            id == old(self)@.len(),
            final(self)@.len() == id + 1,
            final(self)@.take(id as int) == old(self)@,
            final(self)@[id as int] is Some,
            S::obeys_into_spec() ==> final(self)@ == old(self)@.push(Some(value.into_spec())),
    {
        let id = self.members.len();
        self.members.push(Item::Entry(value.into()));
        assert(self@.take(id as int) =~= old(self)@);
        assert(S::obeys_into_spec() ==> self@ =~= old(self)@.push(Some(value.into_spec())));
        id
    }

    /// Appends an entry that is of the pool's own type already.
    pub(crate) fn add_entry(&mut self, value: T) -> (id: Index)
        ensures
            id == old(self)@.len(),
            final(self)@ == old(self)@.push(Some(value)),
    {
        let id = self.members.len();
        self.members.push(Item::Entry(value));
        assert(self@ =~= old(self)@.push(Some(value)));
        id
    }

    /// Overwrites a live slot. A tombstone is not brought back to life.
    pub fn set(&mut self, id: Index, value: T) -> (r: Result<(), ArenaError>) where T: TypeLabel
        ensures
            match r {
                Ok(()) => id < old(self)@.len() && old(self)@[id as int] is Some && final(self)@
                    == old(self)@.update(id as int, Some(value)),
                Err(ArenaError::IndexEmpty(name, at)) => at == id && name@ == T::label() && id
                    < old(self)@.len() && old(self)@[id as int] is None && final(self)@ == old(
                    self)@,
                Err(ArenaError::IndexOutOfBounds(at, len)) => at == id && len == old(self)@.len()
                    && id >= len && final(self)@ == old(self)@,
            },
    {
        if id >= self.members.len() {
            return Err(ArenaError::IndexOutOfBounds(id, self.members.len()));
        }
        if let Item::Tombstone = &self.members[id] {
            return Err(ArenaError::IndexEmpty(T::type_label(), id));
        }
        self.members[id] = Item::Entry(value);
        assert(self@ =~= old(self)@.update(id as int, Some(value)));
        Ok(())
    }

    pub fn get(&self, id: Index) -> (r: Result<&T, ArenaError>) where T: TypeLabel
        ensures
            match r {
                Ok(v) => id < self@.len() && self@[id as int] == Some(*v),
                Err(ArenaError::IndexEmpty(name, at)) => at == id && name@ == T::label() && id
                    < self@.len() && self@[id as int] is None,
                Err(ArenaError::IndexOutOfBounds(at, len)) => at == id && len == self@.len() && id
                    >= len,
            },
    {
        if id >= self.members.len() {
            return Err(ArenaError::IndexOutOfBounds(id, self.members.len()));
        }
        if let Item::Entry(value) = &self.members[id] {
            return Ok(value);
        }
        Err(ArenaError::IndexEmpty(T::type_label(), id))
    }

    pub fn get_mut(&mut self, id: Index) -> (r: Result<&mut T, ArenaError>) where T: TypeLabel
        ensures
            match r {
                Ok(v) => id < old(self)@.len() && old(self)@[id as int] == Some(*v) && final(self)@
                    == old(self)@.update(id as int, Some(*final(v))),
                Err(ArenaError::IndexEmpty(name, at)) => at == id && name@ == T::label() && id
                    < old(self)@.len() && old(self)@[id as int] is None && final(self)@ == old(self)@,
                Err(ArenaError::IndexOutOfBounds(at, len)) => at == id && len == old(self)@.len()
                    && id >= len && final(self)@ == old(self)@,
            },
    {
        if id >= self.members.len() {
            return Err(ArenaError::IndexOutOfBounds(id, self.members.len()));
        }
        let ghost s = self@;
        match &mut self.members[id] {
            Item::Entry(value) => {
                proof {
                    assert(s[id as int] == Some(*value));
                }
                Ok(value)
            },
            Item::Tombstone => Err(ArenaError::IndexEmpty(T::type_label(), id)),
        }
    }

    /// Takes the entry out and leaves a tombstone; `None` where a tombstone
    /// stood there already.
    pub fn remove(&mut self, id: Index) -> (r: Result<Option<T>, ArenaError>)
        ensures
            id < old(self)@.len() ==> r == Ok::<Option<T>, ArenaError>(old(self)@[id as int])
                && final(self)@ == old(self)@.update(id as int, None),
            id >= old(self)@.len() ==> final(self)@ == old(self)@ && r == Err::<
                Option<T>,
                ArenaError,
            >(ArenaError::IndexOutOfBounds(id, old(self)@.len() as usize)),
    {
        if id >= self.members.len() {
            return Err(ArenaError::IndexOutOfBounds(id, self.members.len()));
        }
        let mut value = Item::Tombstone;
        std::mem::swap(&mut self.members[id], &mut value);
        assert(self@ =~= old(self)@.update(id as int, None));
        if let Item::Entry(value) = value {
            Ok(Some(value))
        } else {
            Ok(None)
        }
    }

    /// An iterator over the live entries, in index order.
    pub fn iter(&self) -> (it: ArenaIterator<'_, T>)
        ensures
            it.arena() == *self,
            it.position() == 0,
    {
        ArenaIterator { arena: self, index: 0 }
    }

    /// An iterator that hands out the live entries for writing.
    pub fn iter_mut(&mut self) -> (it: ArenaIteratorMut<'_, T>)
        ensures
            it.arena() == *old(self),
            it.position() == 0,
    {
        ArenaIteratorMut { arena: self, index: 0 }
    }
}

} // verus!

use crate::tombstoning_arena::{bytes_for, saturating_bytes, vec_capacity};
use vstd::prelude::*;
use vstd::std_specs::convert::IntoSpec;

verus! {

pub type Index = usize;

/// A pool without holes: removing an entry moves the last one into its
/// place, so indices are only stable until the next removal.
#[derive(Clone, Debug)]
pub struct Arena<T> {
    members: Vec<T>,
}

#[derive(Clone, Debug, PartialEq, Eq)]
pub enum ArenaError {
    IndexEmpty(String, Index),
    IndexOutOfBounds(Index, Index),
}

impl<T> View for Arena<T> {
    type V = Seq<T>;

    closed spec fn view(&self) -> Seq<T> {
        self.members@
    }
}

impl<T> Default for Arena<T> {
    fn default() -> (r: Self)
        ensures
            r@ == Seq::<T>::empty(),
    {
        Arena::new()
    }
}

pub struct ArenaIterator<'a, T> {
    arena: &'a Arena<T>,
    index: Index,
}

impl<'a, T> ArenaIterator<'a, T> {
    /// The pool that is walked.
    pub closed spec fn arena(&self) -> Arena<T> {
        *self.arena
    }

    /// The index of the entry that comes next.
    pub closed spec fn position(&self) -> int {
        self.index as int
    }

    /// Hands out the next entry in index order.
    pub fn next(&mut self) -> (r: Option<&'a T>)
        ensures
            final(self).arena() == old(self).arena(),
            ({
                let s = old(self).arena()@;
                let i = old(self).position();
                if i < s.len() {
                    r == Some(&s[i]) && final(self).position() == i + 1
                } else {
                    r is None && final(self).position() == i
                }
            }),
    {
        let len = self.arena.members.len();
        if self.index < len {
            let value = &self.arena.members[self.index];
            self.index += 1;
            return Some(value);
        }
        None
    }
}

pub struct ArenaIteratorMut<'a, T> {
    arena: &'a mut Arena<T>,
    index: Index,
}

impl<'a, T> ArenaIteratorMut<'a, T> {
    /// The pool that is walked, as it stands now.
    pub closed spec fn arena(&self) -> Arena<T> {
        *self.arena
    }

    /// The index of the entry that comes next.
    pub closed spec fn position(&self) -> int {
        self.index as int
    }

    /// Hands out the next entry in index order for writing; what the caller
    /// leaves in it is what the pool then holds there.
    pub fn next(&mut self) -> (r: Option<&mut T>)
        ensures
            ({
                let s = old(self).arena()@;
                let i = old(self).position();
                match r {
                    Some(v) => i < s.len() && s[i] == *v && final(self).position() == i + 1
                        && final(self).arena()@ == s.update(i, *final(v)),
                    None => i >= s.len() && final(self).position() == i && final(self).arena()@
                        == s,
                }
            }),
    {
        let len = self.arena.members.len();
        if self.index < len {
            let i = self.index;
            self.index += 1;
            return Some(&mut self.arena.members[i]);
        }
        None
    }
}

impl<T> Arena<T> {
    pub fn new() -> (r: Self)
        ensures
            r@ == Seq::<T>::empty(),
    {
        let mut members = Vec::new();
        members.reserve(1000);
        Self { members }
    }

    /// The number of entries.
    pub fn capacity(&self) -> (r: usize)
        ensures
            r == self@.len(),
    {
        self.members.len()
    }

    /// The bytes that the entries take.
    pub fn active_mem_usage(&self) -> (r: usize)
        ensures
            r == saturating_bytes(self@.len() as int, vstd::layout::size_of::<T>() as int),
    {
        bytes_for(self.members.len(), core::mem::size_of::<T>())
    }

    /// The bytes that the pool has reserved, which is no less than what its
    /// entries take.
    pub fn mem_usage(&self) -> (r: usize)
        ensures
            exists|slots: int|
                slots >= self@.len() && r == saturating_bytes(
                    slots,
                    vstd::layout::size_of::<T>() as int,
                ),
    {
        let slots = vec_capacity(&self.members);
        let r = bytes_for(slots, core::mem::size_of::<T>());
        assert(slots >= self@.len() && r == saturating_bytes(
            slots as int,
            vstd::layout::size_of::<T>() as int,
        ));
        r
    }

    /// Reserves the next index, hands it to `value`, and stores what comes
    /// back under that index.
    pub fn add_with_id<S: Into<T>, F: FnOnce(Index) -> S>(&mut self, value: F) -> (id: Index)
        requires
            call_requires(value, (old(self)@.len() as usize,)),
        ensures
            id == old(self)@.len(),
            final(self)@.len() == id + 1,
            final(self)@.take(id as int) == old(self)@,
            exists|made: S| #[trigger]
                call_ensures(value, (id,), made) && (S::obeys_into_spec() ==> final(
                    self)@[id as int] == made.into_spec()),
    {
        let id = self.members.len();
        let made = value(id);
        let ghost kept = made;
        self.members.push(made.into());
        assert(self@.take(id as int) =~= old(self)@);
        assert(call_ensures(value, (id,), kept) && (S::obeys_into_spec() ==> self@[id as int]
            == kept.into_spec()));
        id
    }

    /// Appends `value` and returns its index.
    pub fn add<S: Into<T>>(&mut self, value: S) -> (id: Index)
        ensures
            id == old(self)@.len(),
            final(self)@.len() == id + 1,
            final(self)@.take(id as int) == old(self)@,
            S::obeys_into_spec() ==> final(self)@ == old(self)@.push(value.into_spec()),
    {
        let id = self.members.len();
        self.members.push(value.into());
        assert(self@.take(id as int) =~= old(self)@);
        id
    }

    /// Appends an entry that is of the pool's own type already.
    pub(crate) fn add_entry(&mut self, value: T) -> (id: Index)
        ensures
            id == old(self)@.len(),
            final(self)@ == old(self)@.push(value),
    {
        let id = self.members.len();
        self.members.push(value);
        id
    }

    pub fn set(&mut self, id: Index, value: T) -> (r: Result<(), ArenaError>)
        ensures
            id < old(self)@.len() ==> r is Ok && final(self)@ == old(self)@.update(
                id as int,
                value,
            ),
            id >= old(self)@.len() ==> final(self)@ == old(self)@ && r == Err::<(), ArenaError>(
                ArenaError::IndexOutOfBounds(id, old(self)@.len() as usize),
            ),
    {
        if id >= self.members.len() {
            return Err(ArenaError::IndexOutOfBounds(id, self.members.len()));
        }
        self.members[id] = value;
        Ok(())
    }

    pub fn get(&self, id: Index) -> (r: Result<&T, ArenaError>)
        ensures
            id < self@.len() ==> r == Ok::<&T, ArenaError>(&self@[id as int]),
            id >= self@.len() ==> r == Err::<&T, ArenaError>(
                ArenaError::IndexOutOfBounds(id, self@.len() as usize),
            ),
    {
        if id >= self.members.len() {
            return Err(ArenaError::IndexOutOfBounds(id, self.members.len()));
        }
        Ok(&self.members[id])
    }

    pub fn get_mut(&mut self, id: Index) -> (r: Result<&mut T, ArenaError>)
        ensures
            match r {
                Ok(v) => id < old(self)@.len() && old(self)@[id as int] == *v && final(self)@
                    == old(self)@.update(id as int, *final(v)),
                Err(e) => id >= old(self)@.len() && final(self)@ == old(self)@ && e
                    == ArenaError::IndexOutOfBounds(id, old(self)@.len() as usize),
            },
    {
        if id >= self.members.len() {
            return Err(ArenaError::IndexOutOfBounds(id, self.members.len()));
        }
        Ok(&mut self.members[id])
    }

    /// Takes the entry at `id` out. The last entry moves into its place, so
    /// whoever holds the last index has to take `id` for it from now on.
    pub fn remove_by_swap(&mut self, id: Index) -> (r: Result<T, ArenaError>)
        ensures
            id < old(self)@.len() ==> r == Ok::<T, ArenaError>(old(self)@[id as int]) && final(
                self)@ == (if id == old(self)@.len() - 1 {
                old(self)@.drop_last()
            } else {
                old(self)@.drop_last().update(id as int, old(self)@.last())
            }),
            id >= old(self)@.len() ==> final(self)@ == old(self)@ && r == Err::<T, ArenaError>(
                ArenaError::IndexOutOfBounds(id, old(self)@.len() as usize),
            ),
    {
        let len = self.members.len();
        if id >= len {
            return Err(ArenaError::IndexOutOfBounds(id, len));
        }
        let mut value = self.members.pop().unwrap();
        if id < len - 1 {
            std::mem::swap(&mut self.members[id], &mut value);
        }
        Ok(value)
    }

    /// An iterator over the entries, in index order.
    pub fn iter(&self) -> (it: ArenaIterator<'_, T>)
        ensures
            it.arena() == *self,
            it.position() == 0,
    {
        ArenaIterator { arena: self, index: 0 }
    }

    /// An iterator that hands out the entries for writing.
    pub fn iter_mut(&mut self) -> (it: ArenaIteratorMut<'_, T>)
        ensures
            it.arena() == *old(self),
            it.position() == 0,
    {
        ArenaIteratorMut { arena: self, index: 0 }
    }
}

} // verus!

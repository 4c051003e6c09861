use crate::tombstoning_arena::next_live;
use vstd::prelude::*;

verus! {

pub type ID = usize;

/// The plainest pool: entries are appended, and a removed entry leaves a
/// tombstone behind.
#[derive(Debug)]
pub struct Arena<T> {
    members: Vec<Item<T>>,
}

#[derive(Debug, PartialEq)]
pub enum ArenaError {
    IndexEmpty(ID),
    IndexOutOfBounds(ID, ID),
}

#[derive(Debug)]
pub enum Item<T> {
    Tombstone,
    Entry(T),
}

impl<T> Item<T> {
    pub open spec fn entry(self) -> Option<T> {
        match self {
            Item::Tombstone => None,
            Item::Entry(v) => Some(v),
        }
    }
}

impl<T> View for Arena<T> {
    type V = Seq<Option<T>>;

    closed spec fn view(&self) -> Seq<Option<T>> {
        Seq::new(self.members@.len(), |i: int| self.members@[i].entry())
    }
}

impl<T> Default for Arena<T> {
    fn default() -> (r: Self)
        ensures
            r@ == Seq::<Option<T>>::empty(),
    {
        Arena::new()
    }
}

pub struct ArenaIterator<'a, T> {
    arena: &'a Arena<T>,
    index: ID,
}

impl<'a, T> ArenaIterator<'a, T> {
    /// The pool that is walked.
    pub closed spec fn arena(&self) -> Arena<T> {
        *self.arena
    }

    /// The index from which the search for the next entry starts.
    pub closed spec fn position(&self) -> int {
        self.index as int
    }

    /// Hands out the next live entry in index order, skipping tombstones.
    pub fn next(&mut self) -> (r: Option<&'a T>)
        ensures
            final(self).arena() == old(self).arena(),
            ({
                let s = old(self).arena()@;
                let j = next_live(s, old(self).position());
                if j < s.len() {
                    r == Some(&s[j]->Some_0) && final(self).position() == j + 1
                } else {
                    r is None && final(self).position() == s.len()
                }
            }),
    {
        let len = self.arena.members.len();
        if self.index > len {
            self.index = len;
        }
        while self.index < len
            invariant
                self.arena == old(self).arena,
                len == self.arena.members@.len(),
                self.index <= len,
                next_live(self.arena@, self.index as int) == next_live(
                    old(self).arena@,
                    old(self).index as int,
                ),
            decreases len - self.index,
        {
            if let Item::Entry(value) = &self.arena.members[self.index] {
                self.index += 1;
                return Some(value);
            }
            self.index += 1;
        }
        None
    }
}

pub struct ArenaIteratorMut<'a, T> {
    arena: &'a mut Arena<T>,
    index: ID,
}

impl<'a, T> ArenaIteratorMut<'a, T> {
    /// The pool that is walked, as it stands now.
    pub closed spec fn arena(&self) -> Arena<T> {
        *self.arena
    }

    /// The index from which the search for the next entry starts.
    pub closed spec fn position(&self) -> int {
        self.index as int
    }

    /// Hands out the next live entry in index order for writing; what the
    /// caller leaves in it is what the pool then holds there.
    pub fn next(&mut self) -> (r: Option<&mut T>)
        ensures
            ({
                let s = old(self).arena()@;
                let j = next_live(s, old(self).position());
                match r {
                    Some(v) => j < s.len() && s[j] == Some(*v) && final(self).position() == j + 1
                        && final(self).arena()@ == s.update(j, Some(*final(v))),
                    None => j == s.len() && final(self).position() == s.len() && final(self).arena()@ == s,
                }
            }),
    {
        let len = self.arena.members.len();
        let mut i = if self.index > len {
            len
        } else {
            self.index
        };
        while i < len && matches!(self.arena.members[i], Item::Tombstone)
            invariant
                *self == *old(self),
                len == self.arena.members@.len(),
                i <= len,
                next_live(self.arena@, i as int) == next_live(self.arena@, self.index as int),
            decreases len - i,
        {
            i += 1;
        }
        if i < len {
            self.index = i + 1;
            let ghost s = self.arena@;
            match &mut self.arena.members[i] {
                Item::Entry(value) => {
                    proof {
                        assert(s[i as int] == Some(*value));
                    }
                    Some(value)
                },
                Item::Tombstone => None,
            }
        } else {
            self.index = len;
            None
        }
    }
}

impl<T> Arena<T> {
    pub fn new() -> (r: Self)
        ensures
            r@ == Seq::<Option<T>>::empty(),
    {
        let r = Self { members: Vec::new() };
        assert(r@ =~= Seq::<Option<T>>::empty());
        r
    }

    /// Reserves the next index, hands it to `value`, and stores what comes
    /// back under that index.
    pub fn add_with_id<F: FnOnce(ID) -> T>(&mut self, value: F) -> (id: ID)
        requires
            call_requires(value, (old(self)@.len() as usize,)),
        ensures
            id == old(self)@.len(),
            final(self)@.len() == id + 1,
            final(self)@.take(id as int) == old(self)@,
            final(self)@[id as int] is Some,
            call_ensures(value, (id,), final(self)@[id as int]->Some_0),
    {
        let id = self.members.len();
        let made = value(id);
        self.members.push(Item::Entry(made));
        assert(self@.take(id as int) =~= old(self)@);
        id
    }

    /// Appends `value` and returns its index.
    pub fn add(&mut self, value: T) -> (id: ID)
        ensures
            id == old(self)@.len(),
            final(self)@ == old(self)@.push(Some(value)),
    {
        let id = self.members.len();
        self.members.push(Item::Entry(value));
        assert(self@ =~= old(self)@.push(Some(value)));
        id
    }

    /// Takes the entry out and leaves a tombstone. A slot that held a
    /// tombstone already stays one and is reported as empty.
    pub fn remove(&mut self, id: ID) -> (r: Result<T, ArenaError>)
        ensures
            id < old(self)@.len() ==> final(self)@ == old(self)@.update(id as int, None) && r == (
            match old(self)@[id as int] {
                Some(v) => Ok::<T, ArenaError>(v),
                None => Err::<T, ArenaError>(ArenaError::IndexEmpty(id)),
            }),
            id >= old(self)@.len() ==> final(self)@ == old(self)@ && r == Err::<T, ArenaError>(
                ArenaError::IndexOutOfBounds(id, old(self)@.len() as usize),
            ),
    {
        if id >= self.members.len() {
            return Err(ArenaError::IndexOutOfBounds(id, self.members.len()));
        }
        let mut value = Item::Tombstone;
        std::mem::swap(&mut self.members[id], &mut value);
        assert(self@ =~= old(self)@.update(id as int, None));
        if let Item::Entry(value) = value {
            return Ok(value);
        }
        Err(ArenaError::IndexEmpty(id))
    }

    /// An iterator over the live entries, in index order.
    pub fn iter(&self) -> (it: ArenaIterator<'_, T>)
        ensures
            it.arena() == *self,
            it.position() == 0,
    {
        ArenaIterator { arena: self, index: 0 }
    }

    /// An iterator that hands out the live entries for writing.
    pub fn iter_mut(&mut self) -> (it: ArenaIteratorMut<'_, T>)
        ensures
            it.arena() == *old(self),
            it.position() == 0,
    {
        ArenaIteratorMut { arena: self, index: 0 }
    }
}

} // verus!

use super::component::Entity;
use crate::compact_arena::ArenaError;
use crate::compiler_context::{fault_of, lookup, Fault, Lookup, StoreError, StoreModel};
use crate::nodes::{NodeKind, NodeView};
use crate::typed_index::{Handle, TypedIndex};
use vstd::prelude::*;

verus! {

pub type ComponentId<T> = TypedIndex<T>;

pub type EntityId = ComponentId<Entity>;

#[derive(Debug, Clone)]
pub enum EcsError {
    InternalError(ArenaError),
    ComponentNotFound(String, EntityId),
}

impl StoreError for EcsError {
    open spec fn fault(&self) -> Fault {
        match self {
            EcsError::ComponentNotFound(_, _) => Fault::WrongKind,
            EcsError::InternalError(ArenaError::IndexEmpty(_, _)) => Fault::Empty,
            EcsError::InternalError(ArenaError::IndexOutOfBounds(_, _)) => Fault::OutOfBounds,
        }
    }

    open spec fn subject(&self) -> nat {
        match self {
            EcsError::ComponentNotFound(_, id) => id.id as nat,
            EcsError::InternalError(ArenaError::IndexEmpty(_, id)) => *id as nat,
            EcsError::InternalError(ArenaError::IndexOutOfBounds(id, _)) => *id as nat,
        }
    }

    open spec fn label(&self) -> Seq<char> {
        match self {
            EcsError::ComponentNotFound(name, _) => name@,
            EcsError::InternalError(ArenaError::IndexEmpty(name, _)) => name@,
            EcsError::InternalError(ArenaError::IndexOutOfBounds(_, _)) => Seq::empty(),
        }
    }

    open spec fn bound(&self) -> nat {
        match self {
            EcsError::InternalError(ArenaError::IndexOutOfBounds(_, len)) => *len as nat,
            _ => 0,
        }
    }
}

impl From<ArenaError> for EcsError {
    fn from(it: ArenaError) -> (r: Self) {
        EcsError::InternalError(it)
    }
}

impl vstd::std_specs::convert::FromSpecImpl<ArenaError> for EcsError {
    open spec fn obeys_from_spec() -> bool {
        true
    }

    open spec fn from_spec(it: ArenaError) -> Self {
        EcsError::InternalError(it)
    }
}

/// A store that keeps the nodes of kind `T` as components: each in a pool
/// of its kind, under a handle of its own, and owned by one entity.
pub trait Provider<T: NodeKind>: StoreModel {
    /// The handles of the components.
    type ID: Handle;

    /// The components of kind `T`, in the order of their pool.
    spec fn components(&self) -> Seq<NodeView>;

    /// The entity that owns component `c`.
    spec fn owner_of(&self, c: int) -> nat;

    /// Makes a new entity, hands its identifier to `value`, and gives the
    /// entity what comes back as its component.
    fn add_with_id<F: FnOnce(EntityId) -> T>(&mut self, value: F) -> (id: EntityId)
        requires
            old(self).wf(),
            forall|id: EntityId|
                id.index() == old(self).model().len() ==> #[trigger] call_requires(value, (id,)),
        ensures
            final(self).wf(),
            id.index() == old(self).model().len(),
            exists|made: T| #[trigger]
                call_ensures(value, (id,), made) && final(self).model() == old(
                    self,
                ).model().push(Some(made.node())),
    ;

    /// Gives the live entity `id` what `value` makes of its identifier as
    /// its only component, in place of whatever it owned.
    fn overwrite_entity<F: FnOnce(EntityId) -> T>(&mut self, id: EntityId, value: F) -> (r:
        Result<(), EcsError>)
        requires
            old(self).wf(),
            call_requires(value, (id,)),
        ensures
            final(self).wf(),
            match r {
                Ok(()) => crate::compiler_context::is_live(old(self).model(), id.index())
                    && exists|made: T| #[trigger]
                    call_ensures(value, (id,), made) && final(self).model() == old(
                        self,
                    ).model().update(id.index() as int, Some(made.node())),
                Err(e) => !crate::compiler_context::is_live(old(self).model(), id.index())
                    && final(self).model() == old(self).model() && e.fault() == (if id.index()
                    < old(self).model().len() {
                    Fault::Empty
                } else {
                    Fault::OutOfBounds
                }),
            },
    ;

    /// Makes a new entity that owns `value`.
    fn add_component(&mut self, value: T) -> (id: EntityId)
        requires
            old(self).wf(),
        ensures
            final(self).wf(),
            id.index() == old(self).model().len(),
            final(self).model() == old(self).model().push(Some(value.node())),
    ;

    /// The component under the handle `node`.
    fn get_component(&self, node: Self::ID) -> (r: Result<&T, EcsError>)
        requires
            self.wf(),
        ensures
            match r {
                Ok(v) => node.index() < self.components().len() && v.node()
                    == self.components()[node.index() as int],
                Err(e) => node.index() >= self.components().len() && e.fault()
                    == Fault::OutOfBounds,
            },
    ;

    /// Hands out the component under the handle `node` for writing. What
    /// the caller leaves there is the node of the entity that owns it.
    fn get_component_mut(&mut self, node: Self::ID) -> (r: Result<&mut T, EcsError>)
        requires
            old(self).wf(),
        ensures
            final(self).wf(),
            match r {
                Ok(v) => node.index() < old(self).components().len() && v.node() == old(
                    self,
                ).components()[node.index() as int] && final(self).model() == old(
                    self,
                ).model().update(
                    old(self).owner_of(node.index() as int) as int,
                    Some(final(v).node()),
                ),
                Err(e) => node.index() >= old(self).components().len() && e.fault()
                    == Fault::OutOfBounds && final(self).model() == old(self).model(),
            },
    ;

    /// Takes the component of kind `T` away from the entity `id`, which is
    /// then removed.
    fn remove_component_for_entity(&mut self, id: EntityId) -> (r: Result<T, EcsError>)
        requires
            old(self).wf(),
        ensures
            final(self).wf(),
            match r {
                Ok(v) => lookup(old(self).model(), id.index(), T::kind()) == Lookup::Found(
                    v.node(),
                ) && final(self).model() == old(self).model().update(id.index() as int, None),
                Err(e) => !(lookup(old(self).model(), id.index(), T::kind()) is Found)
                    && e.fault() == fault_of(lookup(old(self).model(), id.index(), T::kind()))
                    && final(self).model() == old(self).model(),
            },
    ;

    /// The component of kind `T` of the entity `id`.
    fn get_component_for_entity(&self, id: EntityId) -> (r: Result<&T, EcsError>)
        requires
            self.wf(),
        ensures
            match r {
                Ok(v) => lookup(self.model(), id.index(), T::kind()) == Lookup::Found(v.node()),
                Err(e) => !(lookup(self.model(), id.index(), T::kind()) is Found) && e.fault()
                    == fault_of(lookup(self.model(), id.index(), T::kind())),
            },
    ;

    /// Hands out the component of kind `T` of the entity `id` for writing.
    fn get_component_for_entity_mut(&mut self, id: EntityId) -> (r: Result<&mut T, EcsError>)
        requires
            old(self).wf(),
        ensures
            final(self).wf(),
            match r {
                Ok(v) => lookup(old(self).model(), id.index(), T::kind()) == Lookup::Found(
                    v.node(),
                ) && final(self).model() == old(self).model().update(
                    id.index() as int,
                    Some(final(v).node()),
                ),
                Err(e) => !(lookup(old(self).model(), id.index(), T::kind()) is Found)
                    && e.fault() == fault_of(lookup(old(self).model(), id.index(), T::kind()))
                    && final(self).model() == old(self).model(),
            },
    ;
}

} // verus!

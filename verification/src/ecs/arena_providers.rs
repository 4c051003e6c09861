use super::component::Entity;
use super::providers::{ComponentId, EcsError, EntityId, Provider};
use super::Ecs;
use crate::compact_arena::{Arena, ArenaError};
use crate::compiler_context::{
    fault_of, lookup, Lookup, NodeStore, Store, StoreError, StoreModel,
};
use crate::nodes::{Call, Kind, NodeKind, NodeView, Operator, Symbol};
use crate::typed_index::{Handle, TypeLabel, TypedIndex};
use vstd::prelude::*;

verus! {

/// A provider that keeps its entities and the components of kind `T` in
/// pools.
pub trait ArenaProvider<T: NodeKind>: Provider<T> {
    /// The table of entities.
    fn entities(&self) -> (r: &Arena<Entity>)
        requires
            self.wf(),
        ensures
            r@.len() == self.model().len(),
    ;

    /// The record of an entity that owns the component `id` of kind `T` and
    /// nothing else.
    fn make_entity(id: ComponentId<T>) -> (r: Entity)
        ensures
            forall|kind: Kind|
                #[trigger] r.component(kind) == (if kind == T::kind() {
                    Some(id.index())
                } else {
                    None::<nat>
                }),
    ;

    /// The table of entities and the pool of the components of kind `T`.
    fn arena(&self) -> (r: (&Arena<Entity>, &Arena<(EntityId, T)>))
        requires
            self.wf(),
        ensures
            r.0@.len() == self.model().len(),
            r.1@.len() == self.components().len(),
            forall|c: int|
                0 <= c < r.1@.len() ==> (#[trigger] r.1@[c]).1.node() == self.components()[c]
                    && r.1@[c].0.index() == self.owner_of(c),
    ;

    /// What [`Provider::get_component_for_entity`] does.
    fn get_impl(&self, id: EntityId) -> (r: Result<&T, EcsError>)
        requires
            self.wf(),
        ensures
            match r {
                Ok(v) => lookup(self.model(), id.index(), T::kind()) == Lookup::Found(v.node()),
                Err(e) => !(lookup(self.model(), id.index(), T::kind()) is Found) && e.fault()
                    == fault_of(lookup(self.model(), id.index(), T::kind())),
            },
    ;

    /// What [`Provider::get_component_for_entity_mut`] does.
    fn get_mut_impl(&mut self, id: EntityId) -> (r: Result<&mut T, EcsError>)
        requires
            old(self).wf(),
        ensures
            final(self).wf(),
            match r {
                Ok(v) => lookup(old(self).model(), id.index(), T::kind()) == Lookup::Found(
                    v.node(),
                ) && final(self).model() == old(self).model().update(
                    id.index() as int,
                    Some(final(v).node()),
                ),
                Err(e) => !(lookup(old(self).model(), id.index(), T::kind()) is Found)
                    && e.fault() == fault_of(lookup(old(self).model(), id.index(), T::kind()))
                    && final(self).model() == old(self).model(),
            },
    ;

    /// What [`Provider::remove_component_for_entity`] does.
    fn remove_impl(&mut self, id: EntityId) -> (r: Result<T, EcsError>)
        requires
            old(self).wf(),
        ensures
            final(self).wf(),
            match r {
                Ok(v) => lookup(old(self).model(), id.index(), T::kind()) == Lookup::Found(
                    v.node(),
                ) && final(self).model() == old(self).model().update(id.index() as int, None),
                Err(e) => !(lookup(old(self).model(), id.index(), T::kind()) is Found)
                    && e.fault() == fault_of(lookup(old(self).model(), id.index(), T::kind()))
                    && final(self).model() == old(self).model(),
            },
    ;
}

impl Provider<i64> for Ecs {
    type ID = ComponentId<i64>;

    open spec fn components(&self) -> Seq<NodeView> {
        Seq::new(self.pool_len(Kind::I64) as nat, |c: int| self.value(Kind::I64, c))
    }

    open spec fn owner_of(&self, c: int) -> nat {
        self.owner(Kind::I64, c) as nat
    }

    fn add_with_id<F: FnOnce(EntityId) -> i64>(&mut self, value: F) -> (id: EntityId) {
        let id: EntityId = TypedIndex::new(self.node_count());
        let made = value(id);
        let ghost kept = made;
        let id = <Ecs as NodeStore<EntityId, i64, EcsError>>::add(self, made);
        assert(call_ensures(value, (id,), kept) && self.model() == old(self).model().push(
            Some(kept.node()),
        ));
        id
    }

    fn overwrite_entity<F: FnOnce(EntityId) -> i64>(&mut self, id: EntityId, value: F) -> (r:
        Result<(), EcsError>) {
        let made = value(id);
        let ghost kept = made;
        proof {
            kept.node_has_kind();
        }
        match <Ecs as NodeStore<EntityId, i64, EcsError>>::overwrite(self, id, made) {
            Ok(_) => {
                assert(call_ensures(value, (id,), kept) && self.model() == old(
                    self,
                ).model().update(id.index() as int, Some(kept.node())));
                Ok(())
            },
            Err(e) => Err(e),
        }
    }

    fn add_component(&mut self, value: i64) -> (id: EntityId) {
        <Ecs as NodeStore<EntityId, i64, EcsError>>::add(self, value)
    }

    fn get_component(&self, node: ComponentId<i64>) -> (r: Result<&i64, EcsError>) {
        match self.i64_values_pool().get(node.id) {
            Ok(pair) => Ok(&pair.1),
            Err(e) => Err(EcsError::InternalError(e)),
        }
    }

    fn get_component_mut(&mut self, node: ComponentId<i64>) -> (r: Result<&mut i64, EcsError>) {
        self.i_64_component_mut(node)
    }

    fn remove_component_for_entity(&mut self, id: EntityId) -> (r: Result<i64, EcsError>) {
        match <Ecs as NodeStore<EntityId, i64, EcsError>>::get(self, id) {
            Ok(_) => {},
            Err(e) => {
                return Err(e);
            },
        }
        match <Ecs as NodeStore<EntityId, i64, EcsError>>::remove(self, id) {
            Ok(Some(value)) => Ok(value),
            Ok(None) => Err(
                EcsError::InternalError(ArenaError::IndexEmpty(<i64>::type_label(), id.id)),
            ),
            Err(e) => Err(e),
        }
    }

    fn get_component_for_entity(&self, id: EntityId) -> (r: Result<&i64, EcsError>) {
        <Ecs as NodeStore<EntityId, i64, EcsError>>::get(self, id)
    }

    fn get_component_for_entity_mut(&mut self, id: EntityId) -> (r: Result<&mut i64, EcsError>) {
        <Ecs as NodeStore<EntityId, i64, EcsError>>::get_mut(self, id)
    }
}

impl ArenaProvider<i64> for Ecs {
    fn entities(&self) -> (r: &Arena<Entity>) {
        self.entity_table()
    }

    fn make_entity(id: ComponentId<i64>) -> (r: Entity) {
        let mut entity = Entity::default();
        entity.i_64 = Some(id);
        entity
    }

    fn arena(&self) -> (r: (&Arena<Entity>, &Arena<(EntityId, i64)>)) {
        (self.entity_table(), self.i64_values_pool())
    }

    fn get_impl(&self, id: EntityId) -> (r: Result<&i64, EcsError>) {
        <Ecs as NodeStore<EntityId, i64, EcsError>>::get(self, id)
    }

    fn get_mut_impl(&mut self, id: EntityId) -> (r: Result<&mut i64, EcsError>) {
        <Ecs as NodeStore<EntityId, i64, EcsError>>::get_mut(self, id)
    }

    fn remove_impl(&mut self, id: EntityId) -> (r: Result<i64, EcsError>) {
        <Ecs as Provider<i64>>::remove_component_for_entity(self, id)
    }
}

impl Provider<Operator> for Ecs {
    type ID = ComponentId<Operator>;

    open spec fn components(&self) -> Seq<NodeView> {
        Seq::new(self.pool_len(Kind::Operator) as nat, |c: int| self.value(Kind::Operator, c))
    }

    open spec fn owner_of(&self, c: int) -> nat {
        self.owner(Kind::Operator, c) as nat
    }

    fn add_with_id<F: FnOnce(EntityId) -> Operator>(&mut self, value: F) -> (id: EntityId) {
        let id: EntityId = TypedIndex::new(self.node_count());
        let made = value(id);
        let ghost kept = made;
        let id = <Ecs as NodeStore<EntityId, Operator, EcsError>>::add(self, made);
        assert(call_ensures(value, (id,), kept) && self.model() == old(self).model().push(
            Some(kept.node()),
        ));
        id
    }

    fn overwrite_entity<F: FnOnce(EntityId) -> Operator>(&mut self, id: EntityId, value: F) -> (r:
        Result<(), EcsError>) {
        let made = value(id);
        let ghost kept = made;
        proof {
            kept.node_has_kind();
        }
        match <Ecs as NodeStore<EntityId, Operator, EcsError>>::overwrite(self, id, made) {
            Ok(_) => {
                assert(call_ensures(value, (id,), kept) && self.model() == old(
                    self,
                ).model().update(id.index() as int, Some(kept.node())));
                Ok(())
            },
            Err(e) => Err(e),
        }
    }

    fn add_component(&mut self, value: Operator) -> (id: EntityId) {
        <Ecs as NodeStore<EntityId, Operator, EcsError>>::add(self, value)
    }

    fn get_component(&self, node: ComponentId<Operator>) -> (r: Result<&Operator, EcsError>) {
        match self.operators_pool().get(node.id) {
            Ok(pair) => Ok(&pair.1),
            Err(e) => Err(EcsError::InternalError(e)),
        }
    }

    fn get_component_mut(&mut self, node: ComponentId<Operator>) -> (r: Result<&mut Operator, EcsError>) {
        self.operator_component_mut(node)
    }

    fn remove_component_for_entity(&mut self, id: EntityId) -> (r: Result<Operator, EcsError>) {
        match <Ecs as NodeStore<EntityId, Operator, EcsError>>::get(self, id) {
            Ok(_) => {},
            Err(e) => {
                return Err(e);
            },
        }
        match <Ecs as NodeStore<EntityId, Operator, EcsError>>::remove(self, id) {
            Ok(Some(value)) => Ok(value),
            Ok(None) => Err(
                EcsError::InternalError(ArenaError::IndexEmpty(<Operator>::type_label(), id.id)),
            ),
            Err(e) => Err(e),
        }
    }

    fn get_component_for_entity(&self, id: EntityId) -> (r: Result<&Operator, EcsError>) {
        <Ecs as NodeStore<EntityId, Operator, EcsError>>::get(self, id)
    }

    fn get_component_for_entity_mut(&mut self, id: EntityId) -> (r: Result<&mut Operator, EcsError>) {
        <Ecs as NodeStore<EntityId, Operator, EcsError>>::get_mut(self, id)
    }
}

impl ArenaProvider<Operator> for Ecs {
    fn entities(&self) -> (r: &Arena<Entity>) {
        self.entity_table()
    }

    fn make_entity(id: ComponentId<Operator>) -> (r: Entity) {
        let mut entity = Entity::default();
        entity.operator = Some(id);
        entity
    }

    fn arena(&self) -> (r: (&Arena<Entity>, &Arena<(EntityId, Operator)>)) {
        (self.entity_table(), self.operators_pool())
    }

    fn get_impl(&self, id: EntityId) -> (r: Result<&Operator, EcsError>) {
        <Ecs as NodeStore<EntityId, Operator, EcsError>>::get(self, id)
    }

    fn get_mut_impl(&mut self, id: EntityId) -> (r: Result<&mut Operator, EcsError>) {
        <Ecs as NodeStore<EntityId, Operator, EcsError>>::get_mut(self, id)
    }

    fn remove_impl(&mut self, id: EntityId) -> (r: Result<Operator, EcsError>) {
        <Ecs as Provider<Operator>>::remove_component_for_entity(self, id)
    }
}

impl Provider<Symbol> for Ecs {
    type ID = ComponentId<Symbol>;

    open spec fn components(&self) -> Seq<NodeView> {
        Seq::new(self.pool_len(Kind::Symbol) as nat, |c: int| self.value(Kind::Symbol, c))
    }

    open spec fn owner_of(&self, c: int) -> nat {
        self.owner(Kind::Symbol, c) as nat
    }

    fn add_with_id<F: FnOnce(EntityId) -> Symbol>(&mut self, value: F) -> (id: EntityId) {
        let id: EntityId = TypedIndex::new(self.node_count());
        let made = value(id);
        let ghost kept = made;
        let id = <Ecs as NodeStore<EntityId, Symbol, EcsError>>::add(self, made);
        assert(call_ensures(value, (id,), kept) && self.model() == old(self).model().push(
            Some(kept.node()),
        ));
        id
    }

    fn overwrite_entity<F: FnOnce(EntityId) -> Symbol>(&mut self, id: EntityId, value: F) -> (r:
        Result<(), EcsError>) {
        let made = value(id);
        let ghost kept = made;
        proof {
            kept.node_has_kind();
        }
        match <Ecs as NodeStore<EntityId, Symbol, EcsError>>::overwrite(self, id, made) {
            Ok(_) => {
                assert(call_ensures(value, (id,), kept) && self.model() == old(
                    self,
                ).model().update(id.index() as int, Some(kept.node())));
                Ok(())
            },
            Err(e) => Err(e),
        }
    }

    fn add_component(&mut self, value: Symbol) -> (id: EntityId) {
        <Ecs as NodeStore<EntityId, Symbol, EcsError>>::add(self, value)
    }

    fn get_component(&self, node: ComponentId<Symbol>) -> (r: Result<&Symbol, EcsError>) {
        match self.symbols_pool().get(node.id) {
            Ok(pair) => Ok(&pair.1),
            Err(e) => Err(EcsError::InternalError(e)),
        }
    }

    fn get_component_mut(&mut self, node: ComponentId<Symbol>) -> (r: Result<&mut Symbol, EcsError>) {
        self.symbol_component_mut(node)
    }

    fn remove_component_for_entity(&mut self, id: EntityId) -> (r: Result<Symbol, EcsError>) {
        match <Ecs as NodeStore<EntityId, Symbol, EcsError>>::get(self, id) {
            Ok(_) => {},
            Err(e) => {
                return Err(e);
            },
        }
        match <Ecs as NodeStore<EntityId, Symbol, EcsError>>::remove(self, id) {
            Ok(Some(value)) => Ok(value),
            Ok(None) => Err(
                EcsError::InternalError(ArenaError::IndexEmpty(<Symbol>::type_label(), id.id)),
            ),
            Err(e) => Err(e),
        }
    }

    fn get_component_for_entity(&self, id: EntityId) -> (r: Result<&Symbol, EcsError>) {
        <Ecs as NodeStore<EntityId, Symbol, EcsError>>::get(self, id)
    }

    fn get_component_for_entity_mut(&mut self, id: EntityId) -> (r: Result<&mut Symbol, EcsError>) {
        <Ecs as NodeStore<EntityId, Symbol, EcsError>>::get_mut(self, id)
    }
}

impl ArenaProvider<Symbol> for Ecs {
    fn entities(&self) -> (r: &Arena<Entity>) {
        self.entity_table()
    }

    fn make_entity(id: ComponentId<Symbol>) -> (r: Entity) {
        let mut entity = Entity::default();
        entity.symbol = Some(id);
        entity
    }

    fn arena(&self) -> (r: (&Arena<Entity>, &Arena<(EntityId, Symbol)>)) {
        (self.entity_table(), self.symbols_pool())
    }

    fn get_impl(&self, id: EntityId) -> (r: Result<&Symbol, EcsError>) {
        <Ecs as NodeStore<EntityId, Symbol, EcsError>>::get(self, id)
    }

    fn get_mut_impl(&mut self, id: EntityId) -> (r: Result<&mut Symbol, EcsError>) {
        <Ecs as NodeStore<EntityId, Symbol, EcsError>>::get_mut(self, id)
    }

    fn remove_impl(&mut self, id: EntityId) -> (r: Result<Symbol, EcsError>) {
        <Ecs as Provider<Symbol>>::remove_component_for_entity(self, id)
    }
}

impl Provider<Call<EntityId>> for Ecs {
    type ID = ComponentId<Call<EntityId>>;

    open spec fn components(&self) -> Seq<NodeView> {
        Seq::new(self.pool_len(Kind::Call) as nat, |c: int| self.value(Kind::Call, c))
    }

    open spec fn owner_of(&self, c: int) -> nat {
        self.owner(Kind::Call, c) as nat
    }

    fn add_with_id<F: FnOnce(EntityId) -> Call<EntityId>>(&mut self, value: F) -> (id: EntityId) {
        let id: EntityId = TypedIndex::new(self.node_count());
        let made = value(id);
        let ghost kept = made;
        let id = <Ecs as NodeStore<EntityId, Call<EntityId>, EcsError>>::add(self, made);
        assert(call_ensures(value, (id,), kept) && self.model() == old(self).model().push(
            Some(kept.node()),
        ));
        id
    }

    fn overwrite_entity<F: FnOnce(EntityId) -> Call<EntityId>>(&mut self, id: EntityId, value: F) -> (r:
        Result<(), EcsError>) {
        let made = value(id);
        let ghost kept = made;
        proof {
            kept.node_has_kind();
        }
        match <Ecs as NodeStore<EntityId, Call<EntityId>, EcsError>>::overwrite(self, id, made) {
            Ok(_) => {
                assert(call_ensures(value, (id,), kept) && self.model() == old(
                    self,
                ).model().update(id.index() as int, Some(kept.node())));
                Ok(())
            },
            Err(e) => Err(e),
        }
    }

    fn add_component(&mut self, value: Call<EntityId>) -> (id: EntityId) {
        <Ecs as NodeStore<EntityId, Call<EntityId>, EcsError>>::add(self, value)
    }

    fn get_component(&self, node: ComponentId<Call<EntityId>>) -> (r: Result<&Call<EntityId>, EcsError>) {
        match self.calls_pool().get(node.id) {
            Ok(pair) => Ok(&pair.1),
            Err(e) => Err(EcsError::InternalError(e)),
        }
    }

    fn get_component_mut(&mut self, node: ComponentId<Call<EntityId>>) -> (r: Result<&mut Call<EntityId>, EcsError>) {
        self.call_component_mut(node)
    }

    fn remove_component_for_entity(&mut self, id: EntityId) -> (r: Result<Call<EntityId>, EcsError>) {
        match <Ecs as NodeStore<EntityId, Call<EntityId>, EcsError>>::get(self, id) {
            Ok(_) => {},
            Err(e) => {
                return Err(e);
            },
        }
        match <Ecs as NodeStore<EntityId, Call<EntityId>, EcsError>>::remove(self, id) {
            Ok(Some(value)) => Ok(value),
            Ok(None) => Err(
                EcsError::InternalError(ArenaError::IndexEmpty(<Call<EntityId>>::type_label(), id.id)),
            ),
            Err(e) => Err(e),
        }
    }

    fn get_component_for_entity(&self, id: EntityId) -> (r: Result<&Call<EntityId>, EcsError>) {
        <Ecs as NodeStore<EntityId, Call<EntityId>, EcsError>>::get(self, id)
    }

    fn get_component_for_entity_mut(&mut self, id: EntityId) -> (r: Result<&mut Call<EntityId>, EcsError>) {
        <Ecs as NodeStore<EntityId, Call<EntityId>, EcsError>>::get_mut(self, id)
    }
}

impl ArenaProvider<Call<EntityId>> for Ecs {
    fn entities(&self) -> (r: &Arena<Entity>) {
        self.entity_table()
    }

    fn make_entity(id: ComponentId<Call<EntityId>>) -> (r: Entity) {
        let mut entity = Entity::default();
        entity.call = Some(id);
        entity
    }

    fn arena(&self) -> (r: (&Arena<Entity>, &Arena<(EntityId, Call<EntityId>)>)) {
        (self.entity_table(), self.calls_pool())
    }

    fn get_impl(&self, id: EntityId) -> (r: Result<&Call<EntityId>, EcsError>) {
        <Ecs as NodeStore<EntityId, Call<EntityId>, EcsError>>::get(self, id)
    }

    fn get_mut_impl(&mut self, id: EntityId) -> (r: Result<&mut Call<EntityId>, EcsError>) {
        <Ecs as NodeStore<EntityId, Call<EntityId>, EcsError>>::get_mut(self, id)
    }

    fn remove_impl(&mut self, id: EntityId) -> (r: Result<Call<EntityId>, EcsError>) {
        <Ecs as Provider<Call<EntityId>>>::remove_component_for_entity(self, id)
    }
}

} // verus!

use crate::nodes::{Call, Kind, NodeKind, NodeView, Operator, Symbol};
use crate::typed_index::Handle;
use vstd::prelude::*;

verus! {

/// What a store holds, as mathematics: one slot per identifier ever handed
/// out, in the order of their creation. `None` is a slot whose node was
/// removed.
pub type Model = Seq<Option<NodeView>>;

/// The number of a slot of a store.
pub type Position = nat;

/// What a typed read of a slot can come to.
pub enum Lookup {
    OutOfBounds,
    Empty,
    WrongKind,
    Found(NodeView),
}

/// What reading slot `at` of `model` as a node of kind `kind` comes to.
pub open spec fn lookup(model: Model, at: nat, kind: Kind) -> Lookup {
    if at >= model.len() {
        Lookup::OutOfBounds
    } else {
        match model[at as int] {
            None => Lookup::Empty,
            Some(n) => if n.kind() == kind {
                Lookup::Found(n)
            } else {
                Lookup::WrongKind
            },
        }
    }
}

/// Whether slot `at` of `model` holds a node.
pub open spec fn is_live(model: Model, at: nat) -> bool {
    at < model.len() && model[at as int] is Some
}

/// Two models have the same shape when they have the same slots and the same
/// slots are empty: nothing was added, removed or brought back.
pub open spec fn same_shape(a: Model, b: Model) -> bool {
    a.len() == b.len() && forall|i: int| 0 <= i < a.len() ==> (a[i] is Some <==> b[i] is Some)
}

/// Whether the slots of `m` from `from` on all hold nodes, each of which
/// refers only to slots before its own. Such nodes form no cycle, and what
/// they refer to is there.
pub open spec fn grounded(m: Model, from: nat) -> bool {
    forall|i: int|
        from <= i < m.len() ==> (#[trigger] m[i]) is Some && m[i]->Some_0.refers_before(i as nat)
}

/// The three ways in which a store refuses an identifier.
#[derive(Copy, Clone, Debug, PartialEq, Eq, Structural)]
pub enum Fault {
    OutOfBounds,
    Empty,
    WrongKind,
}

/// An error type of a store: each error is of one of the three faults, and
/// says which identifier it is about.
pub trait StoreError {
    spec fn fault(&self) -> Fault;

    /// The position of the identifier that was refused.
    spec fn subject(&self) -> nat;

    /// The name that the error gives to what was asked for. An error of an
    /// identifier out of bounds gives none.
    spec fn label(&self) -> Seq<char>;

    /// The number of slots that an error of an identifier out of bounds
    /// reports.
    spec fn bound(&self) -> nat;
}

/// Whether `e` is the error that refuses the identifier at `at`, which a
/// store of `size` slots looked up with the outcome `found`, and names what
/// was asked for as `label`.
pub open spec fn is_refusal<E: StoreError>(
    e: E,
    at: nat,
    found: Lookup,
    size: nat,
    label: Seq<char>,
) -> bool {
    &&& !(found is Found)
    &&& e.fault() == fault_of(found)
    &&& e.subject() == at
    &&& if found is OutOfBounds {
        e.bound() == size
    } else {
        e.label() == label
    }
}

/// The fault that a failed lookup stands for.
pub open spec fn fault_of(found: Lookup) -> Fault {
    match found {
        Lookup::OutOfBounds => Fault::OutOfBounds,
        Lookup::Empty => Fault::Empty,
        _ => Fault::WrongKind,
    }
}

/// A store seen as its model.
pub trait StoreModel {
    spec fn model(&self) -> Model;

    /// The store's internal invariant. Every operation keeps it.
    spec fn wf(&self) -> bool;
}

/// The typed operations of a store on nodes of one kind.
pub trait NodeStore<ID: Handle, T: NodeKind, E: StoreError>: StoreModel {
    /// The name that an error of the fault `fault` gives to a node of kind
    /// `T` that was asked for.
    spec fn label_for(fault: Fault) -> Seq<char>;

    /// Stores `value` under a new identifier, one past the last.
    fn add(&mut self, value: T) -> (id: ID)
        requires
            old(self).wf(),
        ensures
            final(self).wf(),
            final(self).model() == old(self).model().push(Some(value.node())),
            id.index() == old(self).model().len(),
    ;

    /// Reads the node at `id` as one of kind `T`.
    fn get(&self, id: ID) -> (r: Result<&T, E>)
        requires
            self.wf(),
        ensures
            match r {
                Ok(v) => lookup(self.model(), id.index(), T::kind()) == Lookup::Found(v.node()),
                Err(e) => is_refusal(
                    e,
                    id.index(),
                    lookup(self.model(), id.index(), T::kind()),
                    self.model().len(),
                    Self::label_for(e.fault()),
                ),
            },
    ;

    /// Hands out the node at `id` for writing. What the caller leaves there
    /// is the node from then on.
    fn get_mut(&mut self, id: ID) -> (r: Result<&mut T, E>)
        requires
            old(self).wf(),
        ensures
            final(self).wf(),
            match r {
                Ok(v) => lookup(old(self).model(), id.index(), T::kind()) == Lookup::Found(
                    v.node(),
                ) && final(self).model() == old(self).model().update(
                    id.index() as int,
                    Some(final(v).node()),
                ),
                Err(e) => is_refusal(
                    e,
                    id.index(),
                    lookup(old(self).model(), id.index(), T::kind()),
                    old(self).model().len(),
                    Self::label_for(e.fault()),
                ) && final(self).model() == old(self).model(),
            },
    ;

    /// Takes the node at `id` out of the store. The identifier is not given
    /// out again. `None` where the node was removed before.
    fn remove(&mut self, id: ID) -> (r: Result<Option<T>, E>)
        requires
            old(self).wf(),
        ensures
            final(self).wf(),
            match lookup(old(self).model(), id.index(), T::kind()) {
                Lookup::Found(n) => r matches Ok(Some(v)) && v.node() == n && final(self).model()
                    == old(self).model().update(id.index() as int, None),
                Lookup::Empty => r matches Ok(None) && final(self).model() == old(self).model(),
                Lookup::OutOfBounds => r matches Err(e) && is_refusal(
                    e,
                    id.index(),
                    Lookup::OutOfBounds,
                    old(self).model().len(),
                    Self::label_for(e.fault()),
                ) && final(self).model() == old(self).model(),
                Lookup::WrongKind => r matches Err(e) && is_refusal(
                    e,
                    id.index(),
                    Lookup::WrongKind,
                    old(self).model().len(),
                    Self::label_for(e.fault()),
                ) && final(self).model() == old(self).model(),
            },
    ;

    /// Removes the node at `id` if it is of kind `T`, and says nothing.
    fn remove_any(&mut self, id: ID)
        requires
            old(self).wf(),
        ensures
            final(self).wf(),
            final(self).model() == (if lookup(old(self).model(), id.index(), T::kind()) is Found {
                old(self).model().update(id.index() as int, None)
            } else {
                old(self).model()
            }),
    {
        let _ = self.remove(id);
    }

    /// Puts `value` in the place of the live node at `id`, whatever its kind
    /// was, and hands back the old node where it was of kind `T` too. A
    /// removed node is not brought back.
    fn overwrite(&mut self, id: ID, value: T) -> (r: Result<Option<T>, E>)
        requires
            old(self).wf(),
        ensures
            final(self).wf(),
            match lookup(old(self).model(), id.index(), T::kind()) {
                Lookup::Found(n) => r matches Ok(Some(v)) && v.node() == n && final(self).model()
                    == old(self).model().update(id.index() as int, Some(value.node())),
                Lookup::WrongKind => r matches Ok(None) && final(self).model() == old(
                    self).model().update(id.index() as int, Some(value.node())),
                Lookup::Empty => r matches Err(e) && is_refusal(
                    e,
                    id.index(),
                    Lookup::Empty,
                    old(self).model().len(),
                    Self::label_for(e.fault()),
                ) && final(self).model() == old(self).model(),
                Lookup::OutOfBounds => r matches Err(e) && is_refusal(
                    e,
                    id.index(),
                    Lookup::OutOfBounds,
                    old(self).model().len(),
                    Self::label_for(e.fault()),
                ) && final(self).model() == old(self).model(),
            },
    ;
}

/// Someone who is shown nodes of kind `T` of a store `S`, one at a time, and
/// may change the store and the node shown.
pub trait Visitor<S: StoreModel, ID: Handle, T: NodeKind>: Sized {
    /// What the visitor has gathered, as mathematics.
    type State;

    spec fn state(&self) -> Self::State;

    /// What a visit of `node` at slot `at` makes of the visitor's state, of
    /// the store and of the node.
    spec fn after(state: Self::State, model: Model, at: Position, node: NodeView) -> (
        Self::State,
        Model,
        NodeView,
    );

    /// The visit itself. It must not add or remove nodes.
    fn visit(&mut self, store: &mut S, id: ID, value: &mut T)
        requires
            old(store).wf(),
            lookup(old(store).model(), id.index(), T::kind()) == Lookup::Found(old(value).node()),
        ensures
            final(store).wf(),
            same_shape(old(store).model(), final(store).model()),
            (final(self).state(), final(store).model(), final(value).node()) == Self::after(
                old(self).state(),
                old(store).model(),
                id.index(),
                old(value).node(),
            ),
    ;
}

/// The model after a visited node is written back: it takes its place again
/// unless the visitor has meanwhile put a node of another kind there.
pub open spec fn put_back(model: Model, at: nat, node: NodeView) -> Model {
    if lookup(model, at, node.kind()) is Found {
        model.update(at as int, Some(node))
    } else {
        model
    }
}

/// What a pass over the slots `order` makes of a visitor's state and of a
/// store. A slot is visited if it holds a node of kind `kind` when its turn
/// comes.
pub open spec fn walk<V: Visitor<S, ID, T>, S: StoreModel, ID: Handle, T: NodeKind>(
    state: V::State,
    model: Model,
    order: Seq<nat>,
    kind: Kind,
) -> (V::State, Model)
    decreases order.len(),
{
    if order.len() == 0 {
        (state, model)
    } else {
        let at = order[0];
        match lookup(model, at, kind) {
            Lookup::Found(node) => {
                let (s1, m1, n1) = V::after(state, model, at, node);
                walk::<V, S, ID, T>(s1, put_back(m1, at, n1), order.drop_first(), kind)
            },
            _ => walk::<V, S, ID, T>(state, model, order.drop_first(), kind),
        }
    }
}

/// The positions that the identifiers `ids` stand for.
pub open spec fn positions<ID: Handle>(ids: Seq<ID>) -> Seq<nat> {
    Seq::new(ids.len(), |i: int| ids[i].index())
}

/// Shows `visitor` the nodes of kind `T` at `ids`, in that order. A node is
/// shown as a copy, which is written back after the visit.
pub fn visit_all<C, T, V>(store: &mut C, visitor: &mut V, ids: &Vec<C::ID>) where
    C: Store + NodeStore<C::ID, T, C::E>,
    T: NodeKind,
    V: Visitor<C, C::ID, T>,

    requires
        old(store).wf(),
    ensures
        final(store).wf(),
        same_shape(old(store).model(), final(store).model()),
        (final(visitor).state(), final(store).model()) == walk::<V, C, C::ID, T>(
            old(visitor).state(),
            old(store).model(),
            positions(ids@),
            T::kind(),
        ),
{
    let ghost order = positions(ids@);
    assert(order.skip(0) =~= order);
    let mut i: usize = 0;
    while i < ids.len()
        invariant
            i <= ids@.len(),
            store.wf(),
            order == positions(ids@),
            same_shape(old(store).model(), store.model()),
            walk::<V, C, C::ID, T>(visitor.state(), store.model(), order.skip(i as int), T::kind())
                == walk::<V, C, C::ID, T>(
                old(visitor).state(),
                old(store).model(),
                order,
                T::kind(),
            ),
        decreases ids@.len() - i,
    {
        let id = ids[i];
        assert(order.skip(i as int)[0] == id.index());
        assert(order.skip(i as int).drop_first() =~= order.skip(i + 1));
        let copy = match <C as NodeStore<C::ID, T, C::E>>::get(store, id) {
            Ok(value) => Some(value.duplicate()),
            Err(_) => None,
        };
        if let Some(mut value) = copy {
            visitor.visit(store, id, &mut value);
            proof {
                value.node_has_kind();
            }
            match <C as NodeStore<C::ID, T, C::E>>::get_mut(store, id) {
                Ok(slot) => {
                    *slot = value;
                },
                Err(_) => {},
            }
        }
        i += 1;
    }
    assert(order.skip(i as int) =~= Seq::<nat>::empty());
}

/// Whether the store `after` and the visitor `visitor_after` are what a
/// pass over the slots `order` makes of the store `before` and the visitor
/// `visitor_before`. Without a visitor no pass is made and nothing changes.
pub open spec fn passed<V: Visitor<S, ID, T>, S: StoreModel, ID: Handle, T: NodeKind>(
    visitor_before: Option<V>,
    before: S,
    order: Seq<nat>,
    visitor_after: Option<V>,
    after: S,
) -> bool {
    &&& after.wf()
    &&& same_shape(before.model(), after.model())
    &&& match visitor_before {
        None => visitor_after is None && after.model() == before.model(),
        Some(visitor) => visitor_after is Some && (visitor_after->Some_0.state(), after.model())
            == walk::<V, S, ID, T>(visitor.state(), before.model(), order, T::kind()),
    }
}

/// What a backend provides: nodes of the four kinds under identifiers of
/// one type, and the order in which it visits the nodes of a kind.
pub trait Store: StoreModel + NodeStore<Self::ID, Call<Self::ID>, Self::E> + NodeStore<
    Self::ID,
    Symbol,
    Self::E,
> + NodeStore<Self::ID, Operator, Self::E> + NodeStore<Self::ID, i64, Self::E> + Sized {
    type ID: Handle;

    type E: StoreError;

    /// An empty store.
    fn new() -> (r: Self)
        ensures
            r.wf(),
            r.model() == Seq::<Option<NodeView>>::empty(),
    ;

    /// The number of identifiers handed out so far.
    fn node_count(&self) -> (r: usize)
        requires
            self.wf(),
        ensures
            r == self.model().len(),
    ;

    /// The slots of the nodes of kind `kind`, in the order in which a pass
    /// over that kind visits them.
    spec fn visit_order(&self, kind: Kind) -> Seq<nat>;

    /// A pass visits each node of its kind, each once, and nothing else.
    proof fn visit_order_exact(&self, kind: Kind)
        requires
            self.wf(),
        ensures
            self.visit_order(kind).no_duplicates(),
            forall|at: nat| #[trigger]
                self.visit_order(kind).contains(at) <==> lookup(self.model(), at, kind) is Found,
    ;

    /// The identifiers of the nodes of kind `kind`, in visiting order.
    fn ids_of(&self, kind: Kind) -> (ids: Vec<Self::ID>)
        requires
            self.wf(),
        ensures
            positions(ids@) == self.visit_order(kind),
    ;

    fn get_operator(&self, id: Self::ID) -> (r: Result<&Operator, Self::E>)
        requires
            self.wf(),
        ensures
            match r {
                Ok(v) => lookup(self.model(), id.index(), Kind::Operator) == Lookup::Found(v.node()),
                Err(e) => is_refusal(
                    e,
                    id.index(),
                    lookup(self.model(), id.index(), Kind::Operator),
                    self.model().len(),
                    <Self as NodeStore<Self::ID, Operator, Self::E>>::label_for(e.fault()),
                ),
            },
    {
        self.get(id)
    }

    fn get_operator_mut(&mut self, id: Self::ID) -> (r: Result<&mut Operator, Self::E>)
        requires
            old(self).wf(),
        ensures
            final(self).wf(),
            match r {
                Ok(v) => lookup(old(self).model(), id.index(), Kind::Operator) == Lookup::Found(
                    v.node(),
                ) && final(self).model() == old(self).model().update(
                    id.index() as int,
                    Some(final(v).node()),
                ),
                Err(e) => is_refusal(
                    e,
                    id.index(),
                    lookup(old(self).model(), id.index(), Kind::Operator),
                    old(self).model().len(),
                    <Self as NodeStore<Self::ID, Operator, Self::E>>::label_for(e.fault()),
                ) && final(self).model() == old(self).model(),
            },
    {
        self.get_mut(id)
    }

    fn get_symbol(&self, id: Self::ID) -> (r: Result<&Symbol, Self::E>)
        requires
            self.wf(),
        ensures
            match r {
                Ok(v) => lookup(self.model(), id.index(), Kind::Symbol) == Lookup::Found(v.node()),
                Err(e) => is_refusal(
                    e,
                    id.index(),
                    lookup(self.model(), id.index(), Kind::Symbol),
                    self.model().len(),
                    <Self as NodeStore<Self::ID, Symbol, Self::E>>::label_for(e.fault()),
                ),
            },
    {
        self.get(id)
    }

    fn get_symbol_mut(&mut self, id: Self::ID) -> (r: Result<&mut Symbol, Self::E>)
        requires
            old(self).wf(),
        ensures
            final(self).wf(),
            match r {
                Ok(v) => lookup(old(self).model(), id.index(), Kind::Symbol) == Lookup::Found(
                    v.node(),
                ) && final(self).model() == old(self).model().update(
                    id.index() as int,
                    Some(final(v).node()),
                ),
                Err(e) => is_refusal(
                    e,
                    id.index(),
                    lookup(old(self).model(), id.index(), Kind::Symbol),
                    old(self).model().len(),
                    <Self as NodeStore<Self::ID, Symbol, Self::E>>::label_for(e.fault()),
                ) && final(self).model() == old(self).model(),
            },
    {
        self.get_mut(id)
    }

    fn get_call(&self, id: Self::ID) -> (r: Result<&Call<Self::ID>, Self::E>)
        requires
            self.wf(),
        ensures
            match r {
                Ok(v) => lookup(self.model(), id.index(), Kind::Call) == Lookup::Found(v.node()),
                Err(e) => is_refusal(
                    e,
                    id.index(),
                    lookup(self.model(), id.index(), Kind::Call),
                    self.model().len(),
                    <Self as NodeStore<Self::ID, Call<Self::ID>, Self::E>>::label_for(e.fault()),
                ),
            },
    {
        self.get(id)
    }

    fn get_call_mut(&mut self, id: Self::ID) -> (r: Result<&mut Call<Self::ID>, Self::E>)
        requires
            old(self).wf(),
        ensures
            final(self).wf(),
            match r {
                Ok(v) => lookup(old(self).model(), id.index(), Kind::Call) == Lookup::Found(
                    v.node(),
                ) && final(self).model() == old(self).model().update(
                    id.index() as int,
                    Some(final(v).node()),
                ),
                Err(e) => is_refusal(
                    e,
                    id.index(),
                    lookup(old(self).model(), id.index(), Kind::Call),
                    old(self).model().len(),
                    <Self as NodeStore<Self::ID, Call<Self::ID>, Self::E>>::label_for(e.fault()),
                ) && final(self).model() == old(self).model(),
            },
    {
        self.get_mut(id)
    }

    fn get_i64(&self, id: Self::ID) -> (r: Result<&i64, Self::E>)
        requires
            self.wf(),
        ensures
            match r {
                Ok(v) => lookup(self.model(), id.index(), Kind::I64) == Lookup::Found(v.node()),
                Err(e) => is_refusal(
                    e,
                    id.index(),
                    lookup(self.model(), id.index(), Kind::I64),
                    self.model().len(),
                    <Self as NodeStore<Self::ID, i64, Self::E>>::label_for(e.fault()),
                ),
            },
    {
        self.get(id)
    }

    fn get_i64_mut(&mut self, id: Self::ID) -> (r: Result<&mut i64, Self::E>)
        requires
            old(self).wf(),
        ensures
            final(self).wf(),
            match r {
                Ok(v) => lookup(old(self).model(), id.index(), Kind::I64) == Lookup::Found(
                    v.node(),
                ) && final(self).model() == old(self).model().update(
                    id.index() as int,
                    Some(final(v).node()),
                ),
                Err(e) => is_refusal(
                    e,
                    id.index(),
                    lookup(old(self).model(), id.index(), Kind::I64),
                    old(self).model().len(),
                    <Self as NodeStore<Self::ID, i64, Self::E>>::label_for(e.fault()),
                ) && final(self).model() == old(self).model(),
            },
    {
        self.get_mut(id)
    }

    /// Makes `value` the node at `id`, whatever kind of node stood there. A
    /// removed node is not brought back, and no identifier is made.
    fn replace<T: NodeKind>(&mut self, id: Self::ID, value: T) -> (r: Result<(), Self::E>) where
        Self: NodeStore<Self::ID, T, Self::E>,

        requires
            old(self).wf(),
        ensures
            final(self).wf(),
            r is Ok <==> is_live(old(self).model(), id.index()),
            r is Ok ==> final(self).model() == old(self).model().update(
                id.index() as int,
                Some(value.node()),
            ),
            r matches Err(e) ==> final(self).model() == old(self).model() && is_refusal(
                e,
                id.index(),
                lookup(old(self).model(), id.index(), T::kind()),
                old(self).model().len(),
                <Self as NodeStore<Self::ID, T, Self::E>>::label_for(e.fault()),
            ),
    {
        match <Self as NodeStore<Self::ID, T, Self::E>>::overwrite(self, id, value) {
            Ok(_) => Ok(()),
            Err(e) => Err(e),
        }
    }

    /// The bytes that the live nodes take.
    fn active_mem_usage(&self) -> usize
        requires
            self.wf(),
    ;

    /// The bytes that the store has reserved.
    fn mem_usage(&self) -> usize
        requires
            self.wf(),
    ;
}

/// A program store with the passes that are written once for every backend.
pub trait CompilerContext: Store {
    /// Shows `visitor` every integer, in visiting order. A node that the
    /// visitor has replaced by one of another kind before its turn is
    /// passed over, and none is shown twice.
    fn for_each_i64<V: Visitor<Self, Self::ID, i64>>(&mut self, visitor: &mut V) -> (r:
        Result<(), Self::E>)
        requires
            old(self).wf(),
        ensures
            r is Ok,
            final(self).wf(),
            same_shape(old(self).model(), final(self).model()),
            (final(visitor).state(), final(self).model()) == walk::<V, Self, Self::ID, i64>(
                old(visitor).state(),
                old(self).model(),
                old(self).visit_order(Kind::I64),
                Kind::I64,
            ),
    {
        let ids = self.ids_of(Kind::I64);
        visit_all::<Self, i64, V>(self, visitor, &ids);
        Ok(())
    }

    /// Shows `visitor` every operator, in visiting order. A node that the
    /// visitor has replaced by one of another kind before its turn is
    /// passed over, and none is shown twice.
    fn for_each_operator<V: Visitor<Self, Self::ID, Operator>>(&mut self, visitor: &mut V) -> (r:
        Result<(), Self::E>)
        requires
            old(self).wf(),
        ensures
            r is Ok,
            final(self).wf(),
            same_shape(old(self).model(), final(self).model()),
            (final(visitor).state(), final(self).model()) == walk::<V, Self, Self::ID, Operator>(
                old(visitor).state(),
                old(self).model(),
                old(self).visit_order(Kind::Operator),
                Kind::Operator,
            ),
    {
        let ids = self.ids_of(Kind::Operator);
        visit_all::<Self, Operator, V>(self, visitor, &ids);
        Ok(())
    }

    /// Shows `visitor` every symbol, in visiting order. A node that the
    /// visitor has replaced by one of another kind before its turn is
    /// passed over, and none is shown twice.
    fn for_each_symbol<V: Visitor<Self, Self::ID, Symbol>>(&mut self, visitor: &mut V) -> (r:
        Result<(), Self::E>)
        requires
            old(self).wf(),
        ensures
            r is Ok,
            final(self).wf(),
            same_shape(old(self).model(), final(self).model()),
            (final(visitor).state(), final(self).model()) == walk::<V, Self, Self::ID, Symbol>(
                old(visitor).state(),
                old(self).model(),
                old(self).visit_order(Kind::Symbol),
                Kind::Symbol,
            ),
    {
        let ids = self.ids_of(Kind::Symbol);
        visit_all::<Self, Symbol, V>(self, visitor, &ids);
        Ok(())
    }

    /// Shows `visitor` every call, in visiting order. A node that the
    /// visitor has replaced by one of another kind before its turn is
    /// passed over, and none is shown twice.
    fn for_each_call<V: Visitor<Self, Self::ID, Call<Self::ID>>>(&mut self, visitor: &mut V) -> (r:
        Result<(), Self::E>)
        requires
            old(self).wf(),
        ensures
            r is Ok,
            final(self).wf(),
            same_shape(old(self).model(), final(self).model()),
            (final(visitor).state(), final(self).model()) == walk::<V, Self, Self::ID, Call<Self::ID>>(
                old(visitor).state(),
                old(self).model(),
                old(self).visit_order(Kind::Call),
                Kind::Call,
            ),
    {
        let ids = self.ids_of(Kind::Call);
        visit_all::<Self, Call<Self::ID>, V>(self, visitor, &ids);
        Ok(())
    }

    /// Makes up to four passes, one after the other: over the integers, the
    /// operators, the symbols and the calls, each with its own visitor and
    /// each as the pass of that kind alone would be made. A kind without a
    /// visitor is passed over.
    fn for_each<
        V1: Visitor<Self, Self::ID, i64>,
        V2: Visitor<Self, Self::ID, Operator>,
        V3: Visitor<Self, Self::ID, Symbol>,
        V4: Visitor<Self, Self::ID, Call<Self::ID>>,
    >(
        &mut self,
        i64_fn: &mut Option<V1>,
        operator_fn: &mut Option<V2>,
        symbol_fn: &mut Option<V3>,
        call_fn: &mut Option<V4>,
    ) -> (r: Result<(), Self::E>)
        requires
            old(self).wf(),
        ensures
            r is Ok,
            final(self).wf(),
            same_shape(old(self).model(), final(self).model()),
            exists|s1: Self, s2: Self, s3: Self|
                #![trigger s1.model(), s2.model(), s3.model()]
                passed::<V1, Self, Self::ID, i64>(
                    *old(i64_fn),
                    *old(self),
                    old(self).visit_order(Kind::I64),
                    *final(i64_fn),
                    s1,
                ) && passed::<V2, Self, Self::ID, Operator>(
                    *old(operator_fn),
                    s1,
                    s1.visit_order(Kind::Operator),
                    *final(operator_fn),
                    s2,
                ) && passed::<V3, Self, Self::ID, Symbol>(
                    *old(symbol_fn),
                    s2,
                    s2.visit_order(Kind::Symbol),
                    *final(symbol_fn),
                    s3,
                ) && passed::<V4, Self, Self::ID, Call<Self::ID>>(
                    *old(call_fn),
                    s3,
                    s3.visit_order(Kind::Call),
                    *final(call_fn),
                    *final(self),
                ),
    {
        let ghost s0 = *self;
        if let Some(visitor) = i64_fn {
            let ids = self.ids_of(Kind::I64);
            visit_all::<Self, i64, V1>(self, visitor, &ids);
        }
        let ghost s1 = *self;
        if let Some(visitor) = operator_fn {
            let ids = self.ids_of(Kind::Operator);
            visit_all::<Self, Operator, V2>(self, visitor, &ids);
        }
        let ghost s2 = *self;
        if let Some(visitor) = symbol_fn {
            let ids = self.ids_of(Kind::Symbol);
            visit_all::<Self, Symbol, V3>(self, visitor, &ids);
        }
        let ghost s3 = *self;
        if let Some(visitor) = call_fn {
            let ids = self.ids_of(Kind::Call);
            visit_all::<Self, Call<Self::ID>, V4>(self, visitor, &ids);
        }
        proof {
            assert(passed::<V1, Self, Self::ID, i64>(
                *old(i64_fn),
                s0,
                s0.visit_order(Kind::I64),
                *i64_fn,
                s1,
            ));
            assert(passed::<V2, Self, Self::ID, Operator>(
                *old(operator_fn),
                s1,
                s1.visit_order(Kind::Operator),
                *operator_fn,
                s2,
            ));
            assert(passed::<V3, Self, Self::ID, Symbol>(
                *old(symbol_fn),
                s2,
                s2.visit_order(Kind::Symbol),
                *symbol_fn,
                s3,
            ));
            assert(passed::<V4, Self, Self::ID, Call<Self::ID>>(
                *old(call_fn),
                s3,
                s3.visit_order(Kind::Call),
                *call_fn,
                *self,
            ));
            assert(s1.model() == s1.model() && s2.model() == s2.model() && s3.model()
                == s3.model());
        }
        Ok(())
    }

    /// The program under `id` as source text.
    fn pretty(&self, id: Self::ID) -> (r: String)
        requires
            self.wf(),
        ensures
            r@ == crate::pretty_printer::pretty_text(self.model(), id.index()),
    {
        crate::pretty_printer::pretty(self, id)
    }

    /// Runs the optimizer over the store; the root stays the root.
    fn optimize(&mut self, optimizations: &crate::optimizer::Optimizations, id: Self::ID) -> (r:
        Result<Self::ID, Self::E>)
        requires
            old(self).wf(),
        ensures
            final(self).wf(),
            r matches Ok(root) && root == id,
            final(self).model() == crate::optimizer::optimized(
                old(self).model(),
                *optimizations,
            ),
    {
        crate::optimizer::optimize(self, optimizations, id)
    }
}

} // verus!

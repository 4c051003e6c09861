use crate::compact_arena::{Arena, ArenaError};
use crate::tombstoning_arena::{bytes_sum, saturating_bytes, saturating_sum};
use crate::compiler_context::{
    lookup, CompilerContext, Fault, Lookup, Model, NodeStore, Store, StoreError, StoreModel,
};
use crate::nodes::{Call, Kind, NodeKind, NodeView, Operator, Symbol};
use crate::typed_index::{Handle, TypeLabel, TypedIndex};
use vstd::prelude::*;

pub mod arena_providers;
pub mod component;
pub mod providers;

use component::Entity;
pub use providers::EcsError;
use providers::{ComponentId, EntityId};

verus! {

/// The component store: one pool per kind of node, and a table of entities
/// that says which component each entity owns. An identifier is an index
/// into that table. Each component remembers its owner, so that a
/// component that moves within its pool can tell its owner where it went.
#[derive(Clone, Debug)]
pub struct Ecs {
    entities: Arena<Entity>,
    i64_values: Arena<(EntityId, i64)>,
    operators: Arena<(EntityId, Operator)>,
    symbols: Arena<(EntityId, Symbol)>,
    calls: Arena<(EntityId, Call<EntityId>)>,
}

/// The index that a component handle holds.
pub open spec fn component_index<T>(handle: Option<ComponentId<T>>) -> Option<int> {
    match handle {
        Some(c) => Some(c.id as int),
        None => None,
    }
}

impl Ecs {
    /// The number of entities ever made.
    pub closed spec fn len(&self) -> int {
        self.entities@.len() as int
    }

    /// Where in the pool of `kind` the component of entity `e` lies, if it
    /// owns one of that kind.
    pub closed spec fn slot(&self, kind: Kind, e: int) -> Option<int> {
        match kind {
            Kind::I64 => component_index(self.entities@[e].i_64),
            Kind::Operator => component_index(self.entities@[e].operator),
            Kind::Symbol => component_index(self.entities@[e].symbol),
            Kind::Call => component_index(self.entities@[e].call),
        }
    }

    /// The number of components of `kind`.
    pub closed spec fn pool_len(&self, kind: Kind) -> int {
        match kind {
            Kind::I64 => self.i64_values@.len() as int,
            Kind::Operator => self.operators@.len() as int,
            Kind::Symbol => self.symbols@.len() as int,
            Kind::Call => self.calls@.len() as int,
        }
    }

    /// The entity that owns component `c` of the pool of `kind`.
    pub closed spec fn owner(&self, kind: Kind, c: int) -> int {
        match kind {
            Kind::I64 => self.i64_values@[c].0.id as int,
            Kind::Operator => self.operators@[c].0.id as int,
            Kind::Symbol => self.symbols@[c].0.id as int,
            Kind::Call => self.calls@[c].0.id as int,
        }
    }

    /// The node that component `c` of the pool of `kind` is.
    pub closed spec fn value(&self, kind: Kind, c: int) -> NodeView {
        match kind {
            Kind::I64 => NodeView::I64(self.i64_values@[c].1),
            Kind::Operator => NodeView::Operator(self.operators@[c].1),
            Kind::Symbol => NodeView::Symbol(self.symbols@[c].1@),
            Kind::Call => NodeView::Call(self.calls@[c].1@),
        }
    }

    /// Entities and the components of one kind point at each other.
    pub open spec fn linked(&self, kind: Kind) -> bool {
        &&& forall|e: int|
            0 <= e < self.len() && (#[trigger] self.slot(kind, e)) is Some ==> 0 <= self.slot(
                kind,
                e,
            )->Some_0 < self.pool_len(kind) && self.owner(kind, self.slot(kind, e)->Some_0) == e
        &&& forall|c: int|
            0 <= c < self.pool_len(kind) ==> 0 <= (#[trigger] self.owner(kind, c)) < self.len()
                && self.slot(kind, self.owner(kind, c)) == Some(c)
    }

    /// The kind of the component that entity `e` owns, if it owns any.
    pub open spec fn kind_at(&self, e: int) -> Option<Kind> {
        if self.slot(Kind::I64, e) is Some {
            Some(Kind::I64)
        } else if self.slot(Kind::Operator, e) is Some {
            Some(Kind::Operator)
        } else if self.slot(Kind::Symbol, e) is Some {
            Some(Kind::Symbol)
        } else if self.slot(Kind::Call, e) is Some {
            Some(Kind::Call)
        } else {
            None
        }
    }

    /// No entity owns components of two kinds.
    pub open spec fn exclusive(&self) -> bool {
        forall|e: int, kind: Kind|
            0 <= e < self.len() && (#[trigger] self.slot(kind, e)) is Some ==> self.kind_at(e)
                == Some(kind)
    }

    /// The node that entity `e` is, going by the component that it owns.
    pub open spec fn node_at(&self, e: int) -> Option<NodeView> {
        match self.kind_at(e) {
            Some(kind) => Some(self.value(kind, self.slot(kind, e)->Some_0)),
            None => None,
        }
    }

    /// The bytes that the store itself, its table of entities and its
    /// components take, as far as a `usize` counts.
    pub closed spec fn bytes_in_use(&self) -> int {
        saturating_sum(
            saturating_sum(
                saturating_sum(
                    saturating_sum(
                        saturating_sum(
                            vstd::layout::size_of::<Ecs>() as int,
                            saturating_bytes(
                                self.entities@.len() as int,
                                vstd::layout::size_of::<Entity>() as int,
                            ),
                        ),
                        saturating_bytes(
                            self.i64_values@.len() as int,
                            vstd::layout::size_of::<(EntityId, i64)>() as int,
                        ),
                    ),
                    saturating_bytes(
                        self.operators@.len() as int,
                        vstd::layout::size_of::<(EntityId, Operator)>() as int,
                    ),
                ),
                saturating_bytes(
                    self.symbols@.len() as int,
                    vstd::layout::size_of::<(EntityId, Symbol)>() as int,
                ),
            ),
            saturating_bytes(
                self.calls@.len() as int,
                vstd::layout::size_of::<(EntityId, Call<EntityId>)>() as int,
            ),
        )
    }

    /// The owners of the components of kind `kind`, in the order of their
    /// pool.
    pub open spec fn pool_order(&self, kind: Kind) -> Seq<nat> {
        Seq::new(self.pool_len(kind) as nat, |c: int| self.owner(kind, c) as nat)
    }

    /// `self` is `before` with one more entity, which owns a new component
    /// of `kind`.
    pub open spec fn is_added_to(&self, before: Ecs, kind: Kind) -> bool {
        &&& self.len() == before.len() + 1
        &&& forall|k: Kind, e: int|
            0 <= e < before.len() ==> #[trigger] self.slot(k, e) == before.slot(k, e)
        &&& forall|k: Kind|
            #[trigger] self.slot(k, before.len()) == (if k == kind {
                Some(before.pool_len(kind))
            } else {
                None
            })
        &&& forall|k: Kind|
            #[trigger] self.pool_len(k) == before.pool_len(k) + (if k == kind {
                1int
            } else {
                0int
            })
        &&& forall|k: Kind, c: int|
            0 <= c < before.pool_len(k) ==> #[trigger] self.owner(k, c) == before.owner(k, c)
        &&& forall|k: Kind, c: int|
            0 <= c < before.pool_len(k) ==> #[trigger] self.value(k, c) == before.value(k, c)
        &&& self.owner(kind, before.pool_len(kind)) == before.len()
    }

    pub proof fn lemma_added(&self, before: Ecs, kind: Kind)
        requires
            before.wf(),
            self.is_added_to(before, kind),
        ensures
            self.wf(),
            self.model() == before.model().push(Some(self.value(kind, before.pool_len(kind)))),
    {
        assert forall|k: Kind| self.linked(k) by {
            assert(before.linked(k));
            assert forall|e: int| 0 <= e < self.len() && (#[trigger] self.slot(k, e)) is Some implies 0
                <= self.slot(k, e)->Some_0 < self.pool_len(k) && self.owner(
                k,
                self.slot(k, e)->Some_0,
            ) == e by {
                if e < before.len() {
                    assert(before.slot(k, e) is Some);
                }
            }
            assert forall|c: int| 0 <= c < self.pool_len(k) implies 0 <= (#[trigger] self.owner(
                k,
                c,
            )) < self.len() && self.slot(k, self.owner(k, c)) == Some(c) by {
                if c < before.pool_len(k) {
                    assert(0 <= before.owner(k, c) < before.len());
                }
            }
        }
        assert(self.linked(Kind::I64) && self.linked(Kind::Operator) && self.linked(Kind::Symbol)
            && self.linked(Kind::Call));
        assert forall|e: int, k: Kind| 0 <= e < self.len() && (#[trigger] self.slot(k, e)) is Some implies self.kind_at(
            e,
        ) == Some(k) by {
            if e < before.len() {
                assert(before.slot(k, e) is Some);
                assert(before.kind_at(e) == Some(k));
                assert(self.slot(Kind::I64, e) == before.slot(Kind::I64, e));
                assert(self.slot(Kind::Operator, e) == before.slot(Kind::Operator, e));
                assert(self.slot(Kind::Symbol, e) == before.slot(Kind::Symbol, e));
                assert(self.slot(Kind::Call, e) == before.slot(Kind::Call, e));
            } else {
                assert(self.slot(Kind::I64, e) is Some <==> kind == Kind::I64);
                assert(self.slot(Kind::Operator, e) is Some <==> kind == Kind::Operator);
                assert(self.slot(Kind::Symbol, e) is Some <==> kind == Kind::Symbol);
                assert(self.slot(Kind::Call, e) is Some <==> kind == Kind::Call);
            }
        }
        let target = before.model().push(Some(self.value(kind, before.pool_len(kind))));
        assert forall|e: int| 0 <= e < self.len() implies self.node_at(e) == target[e] by {
            assert(self.slot(Kind::I64, e) == if e < before.len() { before.slot(Kind::I64, e) } else { if kind == Kind::I64 { Some(before.pool_len(kind)) } else { None } });
            assert(self.slot(Kind::Operator, e) == if e < before.len() { before.slot(Kind::Operator, e) } else { if kind == Kind::Operator { Some(before.pool_len(kind)) } else { None } });
            assert(self.slot(Kind::Symbol, e) == if e < before.len() { before.slot(Kind::Symbol, e) } else { if kind == Kind::Symbol { Some(before.pool_len(kind)) } else { None } });
            assert(self.slot(Kind::Call, e) == if e < before.len() { before.slot(Kind::Call, e) } else { if kind == Kind::Call { Some(before.pool_len(kind)) } else { None } });
            if e < before.len() {
                assert(before.model()[e] == before.node_at(e));
                match before.kind_at(e) {
                    Some(k) => {
                        assert(before.linked(k));
                        assert(before.slot(k, e) is Some);
                    },
                    None => {},
                }
            }
        }
        assert(self.model() =~= target);
    }

    /// In `before`, entity `e` owns component `c` of `kind`; `self` is
    /// `before` after that component was taken out of its pool and the
    /// pool's last component was moved into the gap.
    pub open spec fn is_evicted_from(&self, before: Ecs, kind: Kind, e: int) -> bool {
        let c = before.slot(kind, e)->Some_0;
        let last = before.pool_len(kind) - 1;
        let moved = before.owner(kind, last);
        &&& self.len() == before.len()
        &&& forall|k: Kind|
            #[trigger] self.pool_len(k) == before.pool_len(k) - (if k == kind {
                1int
            } else {
                0int
            })
        &&& forall|k: Kind, x: int|
            0 <= x < before.len() ==> #[trigger] self.slot(k, x) == (if k == kind && x == e {
                None
            } else if k == kind && x == moved {
                Some(c)
            } else {
                before.slot(k, x)
            })
        &&& forall|k: Kind, i: int|
            0 <= i < self.pool_len(k) ==> #[trigger] self.owner(k, i) == before.owner(
                k,
                if k == kind && i == c {
                    last
                } else {
                    i
                },
            )
        &&& forall|k: Kind, i: int|
            0 <= i < self.pool_len(k) ==> #[trigger] self.value(k, i) == before.value(
                k,
                if k == kind && i == c {
                    last
                } else {
                    i
                },
            )
    }

    pub proof fn lemma_evicted(&self, before: Ecs, kind: Kind, e: int)
        requires
            before.wf(),
            0 <= e < before.len(),
            before.slot(kind, e) is Some,
            self.is_evicted_from(before, kind, e),
        ensures
            self.wf(),
            self.model() == before.model().update(e, None),
    {
        let c = before.slot(kind, e)->Some_0;
        let last = before.pool_len(kind) - 1;
        let moved = before.owner(kind, last);
        assert(before.linked(kind));
        assert(0 <= c <= last && before.owner(kind, c) == e);
        assert(0 <= moved < before.len() && before.slot(kind, moved) == Some(last));
        assert forall|k: Kind| self.linked(k) by {
            assert(before.linked(k));
            assert forall|x: int| 0 <= x < self.len() && (#[trigger] self.slot(k, x)) is Some implies 0
                <= self.slot(k, x)->Some_0 < self.pool_len(k) && self.owner(
                k,
                self.slot(k, x)->Some_0,
            ) == x by {
                if k == kind && x == moved {
                } else {
                    assert(before.slot(k, x) is Some);
                    if k == kind {
                        let i = before.slot(k, x)->Some_0;
                        if i == last {
                            assert(before.owner(k, last) == x);
                        }
                        if i == c {
                            assert(before.owner(k, c) == x);
                        }
                    }
                }
            }
            assert forall|i: int| 0 <= i < self.pool_len(k) implies 0 <= (#[trigger] self.owner(
                k,
                i,
            )) < self.len() && self.slot(k, self.owner(k, i)) == Some(i) by {
                let j = if k == kind && i == c { last } else { i };
                assert(0 <= before.owner(k, j) < before.len());
                assert(before.slot(k, before.owner(k, j)) == Some(j));
            }
        }
        assert(self.linked(Kind::I64) && self.linked(Kind::Operator) && self.linked(Kind::Symbol)
            && self.linked(Kind::Call));
        assert forall|x: int| 0 <= x < self.len() implies self.kind_at(x) == (if x == e {
            None
        } else {
            before.kind_at(x)
        }) by {
            assert(before.kind_at(e) == Some(kind));
            assert(self.slot(Kind::I64, x) is Some <==> x != e && before.slot(Kind::I64, x) is Some) by {
                if x == moved && x != e && kind == Kind::I64 { assert(before.slot(kind, moved) is Some); }
                if x == e && before.slot(Kind::I64, x) is Some { assert(before.kind_at(e) == Some(Kind::I64)); }
            }
            assert(self.slot(Kind::Operator, x) is Some <==> x != e && before.slot(Kind::Operator, x) is Some) by {
                if x == moved && x != e && kind == Kind::Operator { assert(before.slot(kind, moved) is Some); }
                if x == e && before.slot(Kind::Operator, x) is Some { assert(before.kind_at(e) == Some(Kind::Operator)); }
            }
            assert(self.slot(Kind::Symbol, x) is Some <==> x != e && before.slot(Kind::Symbol, x) is Some) by {
                if x == moved && x != e && kind == Kind::Symbol { assert(before.slot(kind, moved) is Some); }
                if x == e && before.slot(Kind::Symbol, x) is Some { assert(before.kind_at(e) == Some(Kind::Symbol)); }
            }
            assert(self.slot(Kind::Call, x) is Some <==> x != e && before.slot(Kind::Call, x) is Some) by {
                if x == moved && x != e && kind == Kind::Call { assert(before.slot(kind, moved) is Some); }
                if x == e && before.slot(Kind::Call, x) is Some { assert(before.kind_at(e) == Some(Kind::Call)); }
            }
        }
        assert forall|x: int, k: Kind| 0 <= x < self.len() && (#[trigger] self.slot(k, x)) is Some implies self.kind_at(
            x,
        ) == Some(k) by {
            if k == kind && x == moved {
                assert(before.slot(k, x) is Some);
            } else {
                assert(before.slot(k, x) is Some);
            }
        }
        let target = before.model().update(e, None);
        assert forall|x: int| 0 <= x < self.len() implies self.node_at(x) == target[x] by {
            assert(before.model()[x] == before.node_at(x));
            if x != e {
                match before.kind_at(x) {
                    Some(k) => {
                        assert(before.linked(k));
                        assert(before.slot(k, x) is Some);
                        let i = before.slot(k, x)->Some_0;
                        assert(before.owner(k, i) == x);
                        assert(self.slot(k, x) is Some);
                        let j = self.slot(k, x)->Some_0;
                        assert(self.value(k, j) == before.value(k, i));
                    },
                    None => {},
                }
            }
        }
        assert(self.model() =~= target);
    }

    /// `self` is `before` after entity `e`, which owned nothing, was given
    /// a new component of `kind`.
    pub open spec fn is_attached_to(&self, before: Ecs, kind: Kind, e: int) -> bool {
        &&& self.len() == before.len()
        &&& forall|k: Kind|
            #[trigger] self.pool_len(k) == before.pool_len(k) + (if k == kind {
                1int
            } else {
                0int
            })
        &&& forall|k: Kind, x: int|
            0 <= x < before.len() ==> #[trigger] self.slot(k, x) == (if k == kind && x == e {
                Some(before.pool_len(kind))
            } else {
                before.slot(k, x)
            })
        &&& forall|k: Kind, c: int|
            0 <= c < before.pool_len(k) ==> #[trigger] self.owner(k, c) == before.owner(k, c)
        &&& forall|k: Kind, c: int|
            0 <= c < before.pool_len(k) ==> #[trigger] self.value(k, c) == before.value(k, c)
        &&& self.owner(kind, before.pool_len(kind)) == e
    }

    pub proof fn lemma_attached(&self, before: Ecs, kind: Kind, e: int)
        requires
            before.wf(),
            0 <= e < before.len(),
            before.kind_at(e) is None,
            self.is_attached_to(before, kind, e),
        ensures
            self.wf(),
            self.model() == before.model().update(
                e,
                Some(self.value(kind, before.pool_len(kind))),
            ),
    {
        assert forall|k: Kind| self.linked(k) by {
            assert(before.linked(k));
            assert forall|x: int| 0 <= x < self.len() && (#[trigger] self.slot(k, x)) is Some implies 0
                <= self.slot(k, x)->Some_0 < self.pool_len(k) && self.owner(
                k,
                self.slot(k, x)->Some_0,
            ) == x by {
                if !(k == kind && x == e) {
                    assert(before.slot(k, x) is Some);
                }
            }
            assert forall|c: int| 0 <= c < self.pool_len(k) implies 0 <= (#[trigger] self.owner(
                k,
                c,
            )) < self.len() && self.slot(k, self.owner(k, c)) == Some(c) by {
                if c < before.pool_len(k) {
                    assert(0 <= before.owner(k, c) < before.len());
                    assert(before.slot(k, before.owner(k, c)) == Some(c));
                }
            }
        }
        assert(self.linked(Kind::I64) && self.linked(Kind::Operator) && self.linked(Kind::Symbol)
            && self.linked(Kind::Call));
        assert forall|x: int| 0 <= x < self.len() implies self.kind_at(x) == (if x == e {
            Some(kind)
        } else {
            before.kind_at(x)
        }) by {
            assert(self.slot(Kind::I64, x) == if x == e && kind == Kind::I64 { Some(before.pool_len(kind)) } else { before.slot(Kind::I64, x) });
            assert(self.slot(Kind::Operator, x) == if x == e && kind == Kind::Operator { Some(before.pool_len(kind)) } else { before.slot(Kind::Operator, x) });
            assert(self.slot(Kind::Symbol, x) == if x == e && kind == Kind::Symbol { Some(before.pool_len(kind)) } else { before.slot(Kind::Symbol, x) });
            assert(self.slot(Kind::Call, x) == if x == e && kind == Kind::Call { Some(before.pool_len(kind)) } else { before.slot(Kind::Call, x) });
        }
        assert forall|x: int, k: Kind| 0 <= x < self.len() && (#[trigger] self.slot(k, x)) is Some implies self.kind_at(
            x,
        ) == Some(k) by {
            if x != e {
                assert(before.slot(k, x) is Some);
            } else if k != kind {
                assert(before.slot(k, x) is Some);
            }
        }
        let target = before.model().update(e, Some(self.value(kind, before.pool_len(kind))));
        assert forall|x: int| 0 <= x < self.len() implies self.node_at(x) == target[x] by {
            assert(before.model()[x] == before.node_at(x));
            if x != e {
                match before.kind_at(x) {
                    Some(k) => {
                        assert(before.linked(k));
                        assert(before.slot(k, x) is Some);
                    },
                    None => {},
                }
            }
        }
        assert(self.model() =~= target);
    }

    /// `self` is `before` but for the value of component `c` of `kind`.
    pub open spec fn is_written_from(&self, before: Ecs, kind: Kind, c: int) -> bool {
        &&& self.len() == before.len()
        &&& forall|k: Kind| #[trigger] self.pool_len(k) == before.pool_len(k)
        &&& forall|k: Kind, x: int|
            0 <= x < before.len() ==> #[trigger] self.slot(k, x) == before.slot(k, x)
        &&& forall|k: Kind, i: int|
            0 <= i < before.pool_len(k) ==> #[trigger] self.owner(k, i) == before.owner(k, i)
        &&& forall|k: Kind, i: int|
            0 <= i < before.pool_len(k) && !(k == kind && i == c) ==> #[trigger] self.value(k, i)
                == before.value(k, i)
    }

    pub proof fn lemma_written(&self, before: Ecs, kind: Kind, c: int)
        requires
            before.wf(),
            0 <= c < before.pool_len(kind),
            self.is_written_from(before, kind, c),
        ensures
            self.wf(),
            self.model() == before.model().update(
                before.owner(kind, c),
                Some(self.value(kind, c)),
            ),
    {
        let e = before.owner(kind, c);
        assert(before.linked(kind));
        assert(0 <= e < before.len() && before.slot(kind, e) == Some(c));
        assert(before.kind_at(e) == Some(kind));
        assert forall|k: Kind| self.linked(k) by {
            assert(before.linked(k));
            assert forall|x: int| 0 <= x < self.len() && (#[trigger] self.slot(k, x)) is Some implies 0
                <= self.slot(k, x)->Some_0 < self.pool_len(k) && self.owner(
                k,
                self.slot(k, x)->Some_0,
            ) == x by {
                assert(before.slot(k, x) is Some);
            }
            assert forall|i: int| 0 <= i < self.pool_len(k) implies 0 <= (#[trigger] self.owner(
                k,
                i,
            )) < self.len() && self.slot(k, self.owner(k, i)) == Some(i) by {
                assert(0 <= before.owner(k, i) < before.len());
                assert(before.slot(k, before.owner(k, i)) == Some(i));
            }
        }
        assert(self.linked(Kind::I64) && self.linked(Kind::Operator) && self.linked(Kind::Symbol)
            && self.linked(Kind::Call));
        assert forall|x: int| 0 <= x < self.len() implies self.kind_at(x) == before.kind_at(x) by {
            assert(self.slot(Kind::I64, x) == before.slot(Kind::I64, x));
            assert(self.slot(Kind::Operator, x) == before.slot(Kind::Operator, x));
            assert(self.slot(Kind::Symbol, x) == before.slot(Kind::Symbol, x));
            assert(self.slot(Kind::Call, x) == before.slot(Kind::Call, x));
        }
        assert forall|x: int, k: Kind| 0 <= x < self.len() && (#[trigger] self.slot(k, x)) is Some implies self.kind_at(
            x,
        ) == Some(k) by {
            assert(before.slot(k, x) is Some);
        }
        let target = before.model().update(e, Some(self.value(kind, c)));
        assert forall|x: int| 0 <= x < self.len() implies self.node_at(x) == target[x] by {
            assert(before.model()[x] == before.node_at(x));
            match before.kind_at(x) {
                Some(k) => {
                    assert(before.linked(k));
                    assert(before.slot(k, x) is Some);
                    let i = before.slot(k, x)->Some_0;
                    assert(before.owner(k, i) == x);
                },
                None => {},
            }
        }
        assert(self.model() =~= target);
    }

    /// Whatever is written into the value of component `c` of `kind`, the
    /// store stays sound and only the owner's node changes.
    pub proof fn lemma_any_write(&self, kind: Kind, c: int)
        requires
            self.wf(),
            0 <= c < self.pool_len(kind),
        ensures
            forall|after: Ecs|
                #![trigger after.wf()]
                #![trigger after.model()]
                after.is_written_from(*self, kind, c) ==> after.wf() && after.model()
                    == self.model().update(self.owner(kind, c), Some(after.value(kind, c))),
    {
        assert forall|after: Ecs| after.is_written_from(*self, kind, c) implies #[trigger] after.wf()
            && after.model() == self.model().update(
            self.owner(kind, c),
            Some(after.value(kind, c)),
        ) by {
            after.lemma_written(*self, kind, c);
        }
    }

    /// What a typed read of entity `e` comes to, going by what it owns.
    pub proof fn lemma_lookup(&self, kind: Kind, e: int)
        requires
            self.wf(),
            0 <= e,
        ensures
            lookup(self.model(), e as nat, kind) == (if e >= self.len() {
                Lookup::OutOfBounds
            } else if self.slot(kind, e) is Some {
                Lookup::Found(self.value(kind, self.slot(kind, e)->Some_0))
            } else if self.kind_at(e) is None {
                Lookup::Empty
            } else {
                Lookup::WrongKind
            }),
            0 <= e < self.len() && self.slot(kind, e) is Some ==> 0 <= self.slot(kind, e)->Some_0
                < self.pool_len(kind) && self.owner(kind, self.slot(kind, e)->Some_0) == e
                && self.value(kind, self.slot(kind, e)->Some_0).kind() == kind,
    {
        if 0 <= e < self.len() {
            assert(self.model()[e] == self.node_at(e));
            assert(self.linked(kind));
            match self.kind_at(e) {
                Some(k) => {
                    assert(self.slot(k, e) is Some);
                },
                None => {},
            }
        }
    }

    /// Takes the integer component of entity `e` away, if it owns one. The
    /// last component of the pool moves into the gap, and its owner is told
    /// so.
    fn evict_i_64(&mut self, e: usize) -> (r: Option<i64>)
        requires
            old(self).wf(),
            e < old(self).len(),
        ensures
            final(self).wf(),
            match lookup(old(self).model(), e as nat, Kind::I64) {
                Lookup::Found(n) => r matches Some(v) && v.node() == n && final(self).model()
                    == old(self).model().update(e as int, None),
                _ => r is None && final(self).model() == old(self).model(),
            },
    {
        proof {
            self.lemma_lookup(Kind::I64, e as int);
        }
        let found = match self.entities.get(e) {
            Ok(entity) => entity.i_64,
            Err(_) => None,
        };
        let component = match found {
            Some(component) => component,
            None => {
                return None;
            },
        };
        let ghost before = *self;
        let taken = self.i64_values.remove_by_swap(component.id);
        match self.entities.get_mut(e) {
            Ok(entity) => {
                entity.i_64 = None;
            },
            Err(_) => {},
        }
        if component.id < self.i64_values.capacity() {
            let owner = match self.i64_values.get(component.id) {
                Ok(moved) => moved.0,
                Err(_) => TypedIndex::new(e),
            };
            assert(owner.id == before.owner(Kind::I64, before.pool_len(Kind::I64) - 1));
            assert(before.linked(Kind::I64));
            match self.entities.get_mut(owner.id) {
                Ok(entity) => {
                    entity.i_64 = Some(component);
                },
                Err(_) => {},
            }
        }
        proof {
            assert(before.linked(Kind::I64));
            assert(self.is_evicted_from(before, Kind::I64, e as int));
            self.lemma_evicted(before, Kind::I64, e as int);
        }
        match taken {
            Ok(pair) => Some(pair.1),
            Err(_) => None,
        }
    }

    /// Gives the entity `id`, which owns nothing, the component `value`.
    fn attach_i_64(&mut self, id: EntityId, value: i64)
        requires
            old(self).wf(),
            id.id < old(self).len(),
            old(self).kind_at(id.id as int) is None,
        ensures
            final(self).wf(),
            final(self).model() == old(self).model().update(id.id as int, Some(value.node())),
    {
        let ghost before = *self;
        let component = self.i64_values.add_entry((id, value));
        match self.entities.get_mut(id.id) {
            Ok(entity) => {
                entity.i_64 = Some(TypedIndex::new(component));
            },
            Err(_) => {},
        }
        proof {
            assert(self.is_attached_to(before, Kind::I64, id.id as int));
            self.lemma_attached(before, Kind::I64, id.id as int);
        }
    }

    /// Takes the operator component of entity `e` away, if it owns one. The
    /// last component of the pool moves into the gap, and its owner is told
    /// so.
    fn evict_operator(&mut self, e: usize) -> (r: Option<Operator>)
        requires
            old(self).wf(),
            e < old(self).len(),
        ensures
            final(self).wf(),
            match lookup(old(self).model(), e as nat, Kind::Operator) {
                Lookup::Found(n) => r matches Some(v) && v.node() == n && final(self).model()
                    == old(self).model().update(e as int, None),
                _ => r is None && final(self).model() == old(self).model(),
            },
    {
        proof {
            self.lemma_lookup(Kind::Operator, e as int);
        }
        let found = match self.entities.get(e) {
            Ok(entity) => entity.operator,
            Err(_) => None,
        };
        let component = match found {
            Some(component) => component,
            None => {
                return None;
            },
        };
        let ghost before = *self;
        let taken = self.operators.remove_by_swap(component.id);
        match self.entities.get_mut(e) {
            Ok(entity) => {
                entity.operator = None;
            },
            Err(_) => {},
        }
        if component.id < self.operators.capacity() {
            let owner = match self.operators.get(component.id) {
                Ok(moved) => moved.0,
                Err(_) => TypedIndex::new(e),
            };
            assert(owner.id == before.owner(Kind::Operator, before.pool_len(Kind::Operator) - 1));
            assert(before.linked(Kind::Operator));
            match self.entities.get_mut(owner.id) {
                Ok(entity) => {
                    entity.operator = Some(component);
                },
                Err(_) => {},
            }
        }
        proof {
            assert(before.linked(Kind::Operator));
            assert(self.is_evicted_from(before, Kind::Operator, e as int));
            self.lemma_evicted(before, Kind::Operator, e as int);
        }
        match taken {
            Ok(pair) => Some(pair.1),
            Err(_) => None,
        }
    }

    /// Gives the entity `id`, which owns nothing, the component `value`.
    fn attach_operator(&mut self, id: EntityId, value: Operator)
        requires
            old(self).wf(),
            id.id < old(self).len(),
            old(self).kind_at(id.id as int) is None,
        ensures
            final(self).wf(),
            final(self).model() == old(self).model().update(id.id as int, Some(value.node())),
    {
        let ghost before = *self;
        let component = self.operators.add_entry((id, value));
        match self.entities.get_mut(id.id) {
            Ok(entity) => {
                entity.operator = Some(TypedIndex::new(component));
            },
            Err(_) => {},
        }
        proof {
            assert(self.is_attached_to(before, Kind::Operator, id.id as int));
            self.lemma_attached(before, Kind::Operator, id.id as int);
        }
    }

    /// Takes the symbol component of entity `e` away, if it owns one. The
    /// last component of the pool moves into the gap, and its owner is told
    /// so.
    fn evict_symbol(&mut self, e: usize) -> (r: Option<Symbol>)
        requires
            old(self).wf(),
            e < old(self).len(),
        ensures
            final(self).wf(),
            match lookup(old(self).model(), e as nat, Kind::Symbol) {
                Lookup::Found(n) => r matches Some(v) && v.node() == n && final(self).model()
                    == old(self).model().update(e as int, None),
                _ => r is None && final(self).model() == old(self).model(),
            },
    {
        proof {
            self.lemma_lookup(Kind::Symbol, e as int);
        }
        let found = match self.entities.get(e) {
            Ok(entity) => entity.symbol,
            Err(_) => None,
        };
        let component = match found {
            Some(component) => component,
            None => {
                return None;
            },
        };
        let ghost before = *self;
        let taken = self.symbols.remove_by_swap(component.id);
        match self.entities.get_mut(e) {
            Ok(entity) => {
                entity.symbol = None;
            },
            Err(_) => {},
        }
        if component.id < self.symbols.capacity() {
            let owner = match self.symbols.get(component.id) {
                Ok(moved) => moved.0,
                Err(_) => TypedIndex::new(e),
            };
            assert(owner.id == before.owner(Kind::Symbol, before.pool_len(Kind::Symbol) - 1));
            assert(before.linked(Kind::Symbol));
            match self.entities.get_mut(owner.id) {
                Ok(entity) => {
                    entity.symbol = Some(component);
                },
                Err(_) => {},
            }
        }
        proof {
            assert(before.linked(Kind::Symbol));
            assert(self.is_evicted_from(before, Kind::Symbol, e as int));
            self.lemma_evicted(before, Kind::Symbol, e as int);
        }
        match taken {
            Ok(pair) => Some(pair.1),
            Err(_) => None,
        }
    }

    /// Gives the entity `id`, which owns nothing, the component `value`.
    fn attach_symbol(&mut self, id: EntityId, value: Symbol)
        requires
            old(self).wf(),
            id.id < old(self).len(),
            old(self).kind_at(id.id as int) is None,
        ensures
            final(self).wf(),
            final(self).model() == old(self).model().update(id.id as int, Some(value.node())),
    {
        let ghost before = *self;
        let component = self.symbols.add_entry((id, value));
        match self.entities.get_mut(id.id) {
            Ok(entity) => {
                entity.symbol = Some(TypedIndex::new(component));
            },
            Err(_) => {},
        }
        proof {
            assert(self.is_attached_to(before, Kind::Symbol, id.id as int));
            self.lemma_attached(before, Kind::Symbol, id.id as int);
        }
    }

    /// Takes the call component of entity `e` away, if it owns one. The
    /// last component of the pool moves into the gap, and its owner is told
    /// so.
    fn evict_call(&mut self, e: usize) -> (r: Option<Call<EntityId>>)
        requires
            old(self).wf(),
            e < old(self).len(),
        ensures
            final(self).wf(),
            match lookup(old(self).model(), e as nat, Kind::Call) {
                Lookup::Found(n) => r matches Some(v) && v.node() == n && final(self).model()
                    == old(self).model().update(e as int, None),
                _ => r is None && final(self).model() == old(self).model(),
            },
    {
        proof {
            self.lemma_lookup(Kind::Call, e as int);
        }
        let found = match self.entities.get(e) {
            Ok(entity) => entity.call,
            Err(_) => None,
        };
        let component = match found {
            Some(component) => component,
            None => {
                return None;
            },
        };
        let ghost before = *self;
        let taken = self.calls.remove_by_swap(component.id);
        match self.entities.get_mut(e) {
            Ok(entity) => {
                entity.call = None;
            },
            Err(_) => {},
        }
        if component.id < self.calls.capacity() {
            let owner = match self.calls.get(component.id) {
                Ok(moved) => moved.0,
                Err(_) => TypedIndex::new(e),
            };
            assert(owner.id == before.owner(Kind::Call, before.pool_len(Kind::Call) - 1));
            assert(before.linked(Kind::Call));
            match self.entities.get_mut(owner.id) {
                Ok(entity) => {
                    entity.call = Some(component);
                },
                Err(_) => {},
            }
        }
        proof {
            assert(before.linked(Kind::Call));
            assert(self.is_evicted_from(before, Kind::Call, e as int));
            self.lemma_evicted(before, Kind::Call, e as int);
        }
        match taken {
            Ok(pair) => Some(pair.1),
            Err(_) => None,
        }
    }

    /// Gives the entity `id`, which owns nothing, the component `value`.
    fn attach_call(&mut self, id: EntityId, value: Call<EntityId>)
        requires
            old(self).wf(),
            id.id < old(self).len(),
            old(self).kind_at(id.id as int) is None,
        ensures
            final(self).wf(),
            final(self).model() == old(self).model().update(id.id as int, Some(value.node())),
    {
        let ghost before = *self;
        let component = self.calls.add_entry((id, value));
        match self.entities.get_mut(id.id) {
            Ok(entity) => {
                entity.call = Some(TypedIndex::new(component));
            },
            Err(_) => {},
        }
        proof {
            assert(self.is_attached_to(before, Kind::Call, id.id as int));
            self.lemma_attached(before, Kind::Call, id.id as int);
        }
    }

    /// The table of entities.
    pub(crate) fn entity_table(&self) -> (r: &Arena<Entity>)
        ensures
            r@.len() == self.len(),
    {
        &self.entities
    }

    /// The pool of the components of kind `I64`.
    pub(crate) fn i64_values_pool(&self) -> (r: &Arena<(EntityId, i64)>)
        ensures
            r@.len() == self.pool_len(Kind::I64),
            forall|c: int|
                0 <= c < r@.len() ==> (#[trigger] r@[c]).1.node() == self.value(Kind::I64, c)
                    && r@[c].0.id == self.owner(Kind::I64, c),
    {
        &self.i64_values
    }

    /// Hands out the component `node` of kind `I64` for writing.
    pub(crate) fn i_64_component_mut(&mut self, node: ComponentId<i64>) -> (r: Result<
        &mut i64,
        EcsError,
    >)
        requires
            old(self).wf(),
        ensures
            final(self).wf(),
            match r {
                Ok(v) => node.id < old(self).pool_len(Kind::I64) && v.node() == old(self).value(
                    Kind::I64,
                    node.id as int,
                ) && final(self).model() == old(self).model().update(
                    old(self).owner(Kind::I64, node.id as int),
                    Some(final(v).node()),
                ),
                Err(e) => node.id >= old(self).pool_len(Kind::I64) && e.fault()
                    == Fault::OutOfBounds && final(self).model() == old(
                    self,
                ).model(),
            },
    {
        if node.id >= self.i64_values.capacity() {
            return Err(
                EcsError::InternalError(
                    ArenaError::IndexOutOfBounds(node.id, self.i64_values.capacity()),
                ),
            );
        }
        proof {
            self.lemma_any_write(Kind::I64, node.id as int);
        }
        match self.i64_values.get_mut(node.id) {
            Ok(pair) => Ok(&mut pair.1),
            Err(e) => Err(EcsError::InternalError(e)),
        }
    }

    /// The pool of the components of kind `Operator`.
    pub(crate) fn operators_pool(&self) -> (r: &Arena<(EntityId, Operator)>)
        ensures
            r@.len() == self.pool_len(Kind::Operator),
            forall|c: int|
                0 <= c < r@.len() ==> (#[trigger] r@[c]).1.node() == self.value(Kind::Operator, c)
                    && r@[c].0.id == self.owner(Kind::Operator, c),
    {
        &self.operators
    }

    /// Hands out the component `node` of kind `Operator` for writing.
    pub(crate) fn operator_component_mut(&mut self, node: ComponentId<Operator>) -> (r: Result<
        &mut Operator,
        EcsError,
    >)
        requires
            old(self).wf(),
        ensures
            final(self).wf(),
            match r {
                Ok(v) => node.id < old(self).pool_len(Kind::Operator) && v.node() == old(self).value(
                    Kind::Operator,
                    node.id as int,
                ) && final(self).model() == old(self).model().update(
                    old(self).owner(Kind::Operator, node.id as int),
                    Some(final(v).node()),
                ),
                Err(e) => node.id >= old(self).pool_len(Kind::Operator) && e.fault()
                    == Fault::OutOfBounds && final(self).model() == old(
                    self,
                ).model(),
            },
    {
        if node.id >= self.operators.capacity() {
            return Err(
                EcsError::InternalError(
                    ArenaError::IndexOutOfBounds(node.id, self.operators.capacity()),
                ),
            );
        }
        proof {
            self.lemma_any_write(Kind::Operator, node.id as int);
        }
        match self.operators.get_mut(node.id) {
            Ok(pair) => Ok(&mut pair.1),
            Err(e) => Err(EcsError::InternalError(e)),
        }
    }

    /// The pool of the components of kind `Symbol`.
    pub(crate) fn symbols_pool(&self) -> (r: &Arena<(EntityId, Symbol)>)
        ensures
            r@.len() == self.pool_len(Kind::Symbol),
            forall|c: int|
                0 <= c < r@.len() ==> (#[trigger] r@[c]).1.node() == self.value(Kind::Symbol, c)
                    && r@[c].0.id == self.owner(Kind::Symbol, c),
    {
        &self.symbols
    }

    /// Hands out the component `node` of kind `Symbol` for writing.
    pub(crate) fn symbol_component_mut(&mut self, node: ComponentId<Symbol>) -> (r: Result<
        &mut Symbol,
        EcsError,
    >)
        requires
            old(self).wf(),
        ensures
            final(self).wf(),
            match r {
                Ok(v) => node.id < old(self).pool_len(Kind::Symbol) && v.node() == old(self).value(
                    Kind::Symbol,
                    node.id as int,
                ) && final(self).model() == old(self).model().update(
                    old(self).owner(Kind::Symbol, node.id as int),
                    Some(final(v).node()),
                ),
                Err(e) => node.id >= old(self).pool_len(Kind::Symbol) && e.fault()
                    == Fault::OutOfBounds && final(self).model() == old(
                    self,
                ).model(),
            },
    {
        if node.id >= self.symbols.capacity() {
            return Err(
                EcsError::InternalError(
                    ArenaError::IndexOutOfBounds(node.id, self.symbols.capacity()),
                ),
            );
        }
        proof {
            self.lemma_any_write(Kind::Symbol, node.id as int);
        }
        match self.symbols.get_mut(node.id) {
            Ok(pair) => Ok(&mut pair.1),
            Err(e) => Err(EcsError::InternalError(e)),
        }
    }

    /// The pool of the components of kind `Call`.
    pub(crate) fn calls_pool(&self) -> (r: &Arena<(EntityId, Call<EntityId>)>)
        ensures
            r@.len() == self.pool_len(Kind::Call),
            forall|c: int|
                0 <= c < r@.len() ==> (#[trigger] r@[c]).1.node() == self.value(Kind::Call, c)
                    && r@[c].0.id == self.owner(Kind::Call, c),
    {
        &self.calls
    }

    /// Hands out the component `node` of kind `Call` for writing.
    pub(crate) fn call_component_mut(&mut self, node: ComponentId<Call<EntityId>>) -> (r: Result<
        &mut Call<EntityId>,
        EcsError,
    >)
        requires
            old(self).wf(),
        ensures
            final(self).wf(),
            match r {
                Ok(v) => node.id < old(self).pool_len(Kind::Call) && v.node() == old(self).value(
                    Kind::Call,
                    node.id as int,
                ) && final(self).model() == old(self).model().update(
                    old(self).owner(Kind::Call, node.id as int),
                    Some(final(v).node()),
                ),
                Err(e) => node.id >= old(self).pool_len(Kind::Call) && e.fault()
                    == Fault::OutOfBounds && final(self).model() == old(
                    self,
                ).model(),
            },
    {
        if node.id >= self.calls.capacity() {
            return Err(
                EcsError::InternalError(
                    ArenaError::IndexOutOfBounds(node.id, self.calls.capacity()),
                ),
            );
        }
        proof {
            self.lemma_any_write(Kind::Call, node.id as int);
        }
        match self.calls.get_mut(node.id) {
            Ok(pair) => Ok(&mut pair.1),
            Err(e) => Err(EcsError::InternalError(e)),
        }
    }
}

impl StoreModel for Ecs {
    open spec fn model(&self) -> Model {
        Seq::new(self.len() as nat, |e: int| self.node_at(e))
    }

    open spec fn wf(&self) -> bool {
        &&& self.len() >= 0
        &&& self.exclusive()
        &&& self.linked(Kind::I64)
        &&& self.linked(Kind::Operator)
        &&& self.linked(Kind::Symbol)
        &&& self.linked(Kind::Call)
    }
}

impl NodeStore<EntityId, i64, EcsError> for Ecs {
    open spec fn label_for(fault: Fault) -> Seq<char> {
        <i64 as TypeLabel>::label()
    }

    fn add(&mut self, value: i64) -> (id: EntityId) {
        let ghost before = *self;
        let id: EntityId = TypedIndex::new(self.entities.capacity());
        let component = self.i64_values.add_entry((id, value));
        let mut entity = Entity::default();
        entity.i_64 = Some(TypedIndex::new(component));
        self.entities.add_entry(entity);
        proof {
            assert(self.is_added_to(before, Kind::I64));
            self.lemma_added(before, Kind::I64);
        }
        id
    }

    fn get(&self, id: EntityId) -> (r: Result<&i64, EcsError>) {
        proof {
            self.lemma_lookup(Kind::I64, id.id as int);
        }
        let entity = match self.entities.get(id.id) {
            Ok(entity) => entity,
            Err(e) => {
                return Err(EcsError::InternalError(e));
            },
        };
        if let Some(component) = entity.i_64 {
            match self.i64_values.get(component.id) {
                Ok(pair) => Ok(&pair.1),
                Err(e) => Err(EcsError::InternalError(e)),
            }
        } else if entity.operator.is_none() && entity.symbol.is_none()
            && entity.call.is_none() {
            Err(EcsError::InternalError(ArenaError::IndexEmpty(<i64>::type_label(), id.id)))
        } else {
            Err(EcsError::ComponentNotFound(<i64>::type_label(), id))
        }
    }

    fn get_mut(&mut self, id: EntityId) -> (r: Result<&mut i64, EcsError>) {
        proof {
            self.lemma_lookup(Kind::I64, id.id as int);
        }
        let entity = match self.entities.get(id.id) {
            Ok(entity) => entity,
            Err(e) => {
                return Err(EcsError::InternalError(e));
            },
        };
        let found = entity.i_64;
        let empty = entity.operator.is_none() && entity.symbol.is_none()
            && entity.call.is_none();
        if let Some(component) = found {
            proof {
                self.lemma_any_write(Kind::I64, component.id as int);
            }
            match self.i64_values.get_mut(component.id) {
                Ok(pair) => Ok(&mut pair.1),
                Err(e) => Err(EcsError::InternalError(e)),
            }
        } else if empty {
            Err(EcsError::InternalError(ArenaError::IndexEmpty(<i64>::type_label(), id.id)))
        } else {
            Err(EcsError::ComponentNotFound(<i64>::type_label(), id))
        }
    }

    fn remove(&mut self, id: EntityId) -> (r: Result<Option<i64>, EcsError>) {
        assert(<Ecs as NodeStore<EntityId, i64, EcsError>>::label_for(Fault::WrongKind)
            == <i64 as TypeLabel>::label());
        proof {
            self.lemma_lookup(Kind::I64, id.id as int);
        }
        let entity = match self.entities.get(id.id) {
            Ok(entity) => entity,
            Err(e) => {
                return Err(EcsError::InternalError(e));
            },
        };
        if entity.i_64.is_some() {
            Ok(self.evict_i_64(id.id))
        } else if entity.operator.is_none() && entity.symbol.is_none()
            && entity.call.is_none() {
            Ok(None)
        } else {
            Err(EcsError::ComponentNotFound(<i64>::type_label(), id))
        }
    }

    fn overwrite(&mut self, id: EntityId, value: i64) -> (r: Result<Option<i64>, EcsError>) {
        assert(<Ecs as NodeStore<EntityId, i64, EcsError>>::label_for(Fault::Empty)
            == <i64 as TypeLabel>::label());
        proof {
            self.lemma_lookup(Kind::I64, id.id as int);
            self.lemma_lookup(Kind::Operator, id.id as int);
            self.lemma_lookup(Kind::Symbol, id.id as int);
            self.lemma_lookup(Kind::Call, id.id as int);
        }
        let entity = match self.entities.get(id.id) {
            Ok(entity) => entity,
            Err(e) => {
                return Err(EcsError::InternalError(e));
            },
        };
        if entity.i_64.is_none() && entity.operator.is_none() && entity.symbol.is_none()
            && entity.call.is_none() {
            return Err(
                EcsError::InternalError(ArenaError::IndexEmpty(<i64>::type_label(), id.id)),
            );
        }
        let old_value = self.evict_i_64(id.id);
        let _ = self.evict_operator(id.id);
        let _ = self.evict_symbol(id.id);
        let _ = self.evict_call(id.id);
        assert(self.model() == old(self).model().update(id.id as int, None));
        proof {
            self.lemma_lookup(Kind::I64, id.id as int);
            assert(self.model()[id.id as int] == self.node_at(id.id as int));
        }
        self.attach_i_64(id, value);
        assert(self.model() =~= old(self).model().update(id.id as int, Some(value.node())));
        Ok(old_value)
    }
}

impl NodeStore<EntityId, Operator, EcsError> for Ecs {
    open spec fn label_for(fault: Fault) -> Seq<char> {
        <Operator as TypeLabel>::label()
    }

    fn add(&mut self, value: Operator) -> (id: EntityId) {
        let ghost before = *self;
        let id: EntityId = TypedIndex::new(self.entities.capacity());
        let component = self.operators.add_entry((id, value));
        let mut entity = Entity::default();
        entity.operator = Some(TypedIndex::new(component));
        self.entities.add_entry(entity);
        proof {
            assert(self.is_added_to(before, Kind::Operator));
            self.lemma_added(before, Kind::Operator);
        }
        id
    }

    fn get(&self, id: EntityId) -> (r: Result<&Operator, EcsError>) {
        proof {
            self.lemma_lookup(Kind::Operator, id.id as int);
        }
        let entity = match self.entities.get(id.id) {
            Ok(entity) => entity,
            Err(e) => {
                return Err(EcsError::InternalError(e));
            },
        };
        if let Some(component) = entity.operator {
            match self.operators.get(component.id) {
                Ok(pair) => Ok(&pair.1),
                Err(e) => Err(EcsError::InternalError(e)),
            }
        } else if entity.i_64.is_none() && entity.symbol.is_none()
            && entity.call.is_none() {
            Err(EcsError::InternalError(ArenaError::IndexEmpty(<Operator>::type_label(), id.id)))
        } else {
            Err(EcsError::ComponentNotFound(<Operator>::type_label(), id))
        }
    }

    fn get_mut(&mut self, id: EntityId) -> (r: Result<&mut Operator, EcsError>) {
        proof {
            self.lemma_lookup(Kind::Operator, id.id as int);
        }
        let entity = match self.entities.get(id.id) {
            Ok(entity) => entity,
            Err(e) => {
                return Err(EcsError::InternalError(e));
            },
        };
        let found = entity.operator;
        let empty = entity.i_64.is_none() && entity.symbol.is_none()
            && entity.call.is_none();
        if let Some(component) = found {
            proof {
                self.lemma_any_write(Kind::Operator, component.id as int);
            }
            match self.operators.get_mut(component.id) {
                Ok(pair) => Ok(&mut pair.1),
                Err(e) => Err(EcsError::InternalError(e)),
            }
        } else if empty {
            Err(EcsError::InternalError(ArenaError::IndexEmpty(<Operator>::type_label(), id.id)))
        } else {
            Err(EcsError::ComponentNotFound(<Operator>::type_label(), id))
        }
    }

    fn remove(&mut self, id: EntityId) -> (r: Result<Option<Operator>, EcsError>) {
        assert(<Ecs as NodeStore<EntityId, Operator, EcsError>>::label_for(Fault::WrongKind)
            == <Operator as TypeLabel>::label());
        proof {
            self.lemma_lookup(Kind::Operator, id.id as int);
        }
        let entity = match self.entities.get(id.id) {
            Ok(entity) => entity,
            Err(e) => {
                return Err(EcsError::InternalError(e));
            },
        };
        if entity.operator.is_some() {
            Ok(self.evict_operator(id.id))
        } else if entity.i_64.is_none() && entity.symbol.is_none()
            && entity.call.is_none() {
            Ok(None)
        } else {
            Err(EcsError::ComponentNotFound(<Operator>::type_label(), id))
        }
    }

    fn overwrite(&mut self, id: EntityId, value: Operator) -> (r: Result<Option<Operator>, EcsError>) {
        assert(<Ecs as NodeStore<EntityId, Operator, EcsError>>::label_for(Fault::Empty)
            == <Operator as TypeLabel>::label());
        proof {
            self.lemma_lookup(Kind::I64, id.id as int);
            self.lemma_lookup(Kind::Operator, id.id as int);
            self.lemma_lookup(Kind::Symbol, id.id as int);
            self.lemma_lookup(Kind::Call, id.id as int);
        }
        let entity = match self.entities.get(id.id) {
            Ok(entity) => entity,
            Err(e) => {
                return Err(EcsError::InternalError(e));
            },
        };
        if entity.operator.is_none() && entity.i_64.is_none() && entity.symbol.is_none()
            && entity.call.is_none() {
            return Err(
                EcsError::InternalError(ArenaError::IndexEmpty(<Operator>::type_label(), id.id)),
            );
        }
        let old_value = self.evict_operator(id.id);
        let _ = self.evict_i_64(id.id);
        let _ = self.evict_symbol(id.id);
        let _ = self.evict_call(id.id);
        assert(self.model() == old(self).model().update(id.id as int, None));
        proof {
            self.lemma_lookup(Kind::Operator, id.id as int);
            assert(self.model()[id.id as int] == self.node_at(id.id as int));
        }
        self.attach_operator(id, value);
        assert(self.model() =~= old(self).model().update(id.id as int, Some(value.node())));
        Ok(old_value)
    }
}

impl NodeStore<EntityId, Symbol, EcsError> for Ecs {
    open spec fn label_for(fault: Fault) -> Seq<char> {
        <Symbol as TypeLabel>::label()
    }

    fn add(&mut self, value: Symbol) -> (id: EntityId) {
        let ghost before = *self;
        let id: EntityId = TypedIndex::new(self.entities.capacity());
        let component = self.symbols.add_entry((id, value));
        let mut entity = Entity::default();
        entity.symbol = Some(TypedIndex::new(component));
        self.entities.add_entry(entity);
        proof {
            assert(self.is_added_to(before, Kind::Symbol));
            self.lemma_added(before, Kind::Symbol);
        }
        id
    }

    fn get(&self, id: EntityId) -> (r: Result<&Symbol, EcsError>) {
        proof {
            self.lemma_lookup(Kind::Symbol, id.id as int);
        }
        let entity = match self.entities.get(id.id) {
            Ok(entity) => entity,
            Err(e) => {
                return Err(EcsError::InternalError(e));
            },
        };
        if let Some(component) = entity.symbol {
            match self.symbols.get(component.id) {
                Ok(pair) => Ok(&pair.1),
                Err(e) => Err(EcsError::InternalError(e)),
            }
        } else if entity.i_64.is_none() && entity.operator.is_none()
            && entity.call.is_none() {
            Err(EcsError::InternalError(ArenaError::IndexEmpty(<Symbol>::type_label(), id.id)))
        } else {
            Err(EcsError::ComponentNotFound(<Symbol>::type_label(), id))
        }
    }

    fn get_mut(&mut self, id: EntityId) -> (r: Result<&mut Symbol, EcsError>) {
        proof {
            self.lemma_lookup(Kind::Symbol, id.id as int);
        }
        let entity = match self.entities.get(id.id) {
            Ok(entity) => entity,
            Err(e) => {
                return Err(EcsError::InternalError(e));
            },
        };
        let found = entity.symbol;
        let empty = entity.i_64.is_none() && entity.operator.is_none()
            && entity.call.is_none();
        if let Some(component) = found {
            proof {
                self.lemma_any_write(Kind::Symbol, component.id as int);
            }
            match self.symbols.get_mut(component.id) {
                Ok(pair) => Ok(&mut pair.1),
                Err(e) => Err(EcsError::InternalError(e)),
            }
        } else if empty {
            Err(EcsError::InternalError(ArenaError::IndexEmpty(<Symbol>::type_label(), id.id)))
        } else {
            Err(EcsError::ComponentNotFound(<Symbol>::type_label(), id))
        }
    }

    fn remove(&mut self, id: EntityId) -> (r: Result<Option<Symbol>, EcsError>) {
        assert(<Ecs as NodeStore<EntityId, Symbol, EcsError>>::label_for(Fault::WrongKind)
            == <Symbol as TypeLabel>::label());
        proof {
            self.lemma_lookup(Kind::Symbol, id.id as int);
        }
        let entity = match self.entities.get(id.id) {
            Ok(entity) => entity,
            Err(e) => {
                return Err(EcsError::InternalError(e));
            },
        };
        if entity.symbol.is_some() {
            Ok(self.evict_symbol(id.id))
        } else if entity.i_64.is_none() && entity.operator.is_none()
            && entity.call.is_none() {
            Ok(None)
        } else {
            Err(EcsError::ComponentNotFound(<Symbol>::type_label(), id))
        }
    }

    fn overwrite(&mut self, id: EntityId, value: Symbol) -> (r: Result<Option<Symbol>, EcsError>) {
        assert(<Ecs as NodeStore<EntityId, Symbol, EcsError>>::label_for(Fault::Empty)
            == <Symbol as TypeLabel>::label());
        proof {
            self.lemma_lookup(Kind::I64, id.id as int);
            self.lemma_lookup(Kind::Operator, id.id as int);
            self.lemma_lookup(Kind::Symbol, id.id as int);
            self.lemma_lookup(Kind::Call, id.id as int);
        }
        let entity = match self.entities.get(id.id) {
            Ok(entity) => entity,
            Err(e) => {
                return Err(EcsError::InternalError(e));
            },
        };
        if entity.symbol.is_none() && entity.i_64.is_none() && entity.operator.is_none()
            && entity.call.is_none() {
            return Err(
                EcsError::InternalError(ArenaError::IndexEmpty(<Symbol>::type_label(), id.id)),
            );
        }
        let old_value = self.evict_symbol(id.id);
        let _ = self.evict_i_64(id.id);
        let _ = self.evict_operator(id.id);
        let _ = self.evict_call(id.id);
        assert(self.model() == old(self).model().update(id.id as int, None));
        proof {
            self.lemma_lookup(Kind::Symbol, id.id as int);
            assert(self.model()[id.id as int] == self.node_at(id.id as int));
        }
        self.attach_symbol(id, value);
        assert(self.model() =~= old(self).model().update(id.id as int, Some(value.node())));
        Ok(old_value)
    }
}

impl NodeStore<EntityId, Call<EntityId>, EcsError> for Ecs {
    open spec fn label_for(fault: Fault) -> Seq<char> {
        <Call<EntityId> as TypeLabel>::label()
    }

    fn add(&mut self, value: Call<EntityId>) -> (id: EntityId) {
        let ghost before = *self;
        let id: EntityId = TypedIndex::new(self.entities.capacity());
        let component = self.calls.add_entry((id, value));
        let mut entity = Entity::default();
        entity.call = Some(TypedIndex::new(component));
        self.entities.add_entry(entity);
        proof {
            assert(self.is_added_to(before, Kind::Call));
            self.lemma_added(before, Kind::Call);
        }
        id
    }

    fn get(&self, id: EntityId) -> (r: Result<&Call<EntityId>, EcsError>) {
        proof {
            self.lemma_lookup(Kind::Call, id.id as int);
        }
        let entity = match self.entities.get(id.id) {
            Ok(entity) => entity,
            Err(e) => {
                return Err(EcsError::InternalError(e));
            },
        };
        if let Some(component) = entity.call {
            match self.calls.get(component.id) {
                Ok(pair) => Ok(&pair.1),
                Err(e) => Err(EcsError::InternalError(e)),
            }
        } else if entity.i_64.is_none() && entity.operator.is_none()
            && entity.symbol.is_none() {
            Err(EcsError::InternalError(ArenaError::IndexEmpty(<Call<EntityId>>::type_label(), id.id)))
        } else {
            Err(EcsError::ComponentNotFound(<Call<EntityId>>::type_label(), id))
        }
    }

    fn get_mut(&mut self, id: EntityId) -> (r: Result<&mut Call<EntityId>, EcsError>) {
        proof {
            self.lemma_lookup(Kind::Call, id.id as int);
        }
        let entity = match self.entities.get(id.id) {
            Ok(entity) => entity,
            Err(e) => {
                return Err(EcsError::InternalError(e));
            },
        };
        let found = entity.call;
        let empty = entity.i_64.is_none() && entity.operator.is_none()
            && entity.symbol.is_none();
        if let Some(component) = found {
            proof {
                self.lemma_any_write(Kind::Call, component.id as int);
            }
            match self.calls.get_mut(component.id) {
                Ok(pair) => Ok(&mut pair.1),
                Err(e) => Err(EcsError::InternalError(e)),
            }
        } else if empty {
            Err(EcsError::InternalError(ArenaError::IndexEmpty(<Call<EntityId>>::type_label(), id.id)))
        } else {
            Err(EcsError::ComponentNotFound(<Call<EntityId>>::type_label(), id))
        }
    }

    fn remove(&mut self, id: EntityId) -> (r: Result<Option<Call<EntityId>>, EcsError>) {
        assert(<Ecs as NodeStore<EntityId, Call<EntityId>, EcsError>>::label_for(Fault::WrongKind)
            == <Call<EntityId> as TypeLabel>::label());
        proof {
            self.lemma_lookup(Kind::Call, id.id as int);
        }
        let entity = match self.entities.get(id.id) {
            Ok(entity) => entity,
            Err(e) => {
                return Err(EcsError::InternalError(e));
            },
        };
        if entity.call.is_some() {
            Ok(self.evict_call(id.id))
        } else if entity.i_64.is_none() && entity.operator.is_none()
            && entity.symbol.is_none() {
            Ok(None)
        } else {
            Err(EcsError::ComponentNotFound(<Call<EntityId>>::type_label(), id))
        }
    }

    fn overwrite(&mut self, id: EntityId, value: Call<EntityId>) -> (r: Result<Option<Call<EntityId>>, EcsError>) {
        assert(<Ecs as NodeStore<EntityId, Call<EntityId>, EcsError>>::label_for(Fault::Empty)
            == <Call<EntityId> as TypeLabel>::label());
        proof {
            self.lemma_lookup(Kind::I64, id.id as int);
            self.lemma_lookup(Kind::Operator, id.id as int);
            self.lemma_lookup(Kind::Symbol, id.id as int);
            self.lemma_lookup(Kind::Call, id.id as int);
        }
        let entity = match self.entities.get(id.id) {
            Ok(entity) => entity,
            Err(e) => {
                return Err(EcsError::InternalError(e));
            },
        };
        if entity.call.is_none() && entity.i_64.is_none() && entity.operator.is_none()
            && entity.symbol.is_none() {
            return Err(
                EcsError::InternalError(ArenaError::IndexEmpty(<Call<EntityId>>::type_label(), id.id)),
            );
        }
        let old_value = self.evict_call(id.id);
        let _ = self.evict_i_64(id.id);
        let _ = self.evict_operator(id.id);
        let _ = self.evict_symbol(id.id);
        assert(self.model() == old(self).model().update(id.id as int, None));
        proof {
            self.lemma_lookup(Kind::Call, id.id as int);
            assert(self.model()[id.id as int] == self.node_at(id.id as int));
        }
        self.attach_call(id, value);
        assert(self.model() =~= old(self).model().update(id.id as int, Some(value.node())));
        Ok(old_value)
    }
}

impl Store for Ecs {
    type ID = EntityId;

    type E = EcsError;

    fn new() -> (r: Self) {
        Ecs::new()
    }

    fn node_count(&self) -> (r: usize) {
        self.entities.capacity()
    }

    open spec fn visit_order(&self, kind: Kind) -> Seq<nat> {
        self.pool_order(kind)
    }

    proof fn visit_order_exact(&self, kind: Kind) {
        let order = self.visit_order(kind);
        assert(self.linked(kind));
        assert forall|at: nat| #[trigger] order.contains(at) <==> lookup(
            self.model(),
            at,
            kind,
        ) is Found by {
            self.lemma_lookup(kind, at as int);
            if order.contains(at) {
                let c = choose|c: int| 0 <= c < order.len() && order[c] == at;
                assert(self.owner(kind, c) == at);
            }
            if lookup(self.model(), at, kind) is Found {
                let c = self.slot(kind, at as int)->Some_0;
                assert(order[c] == at);
            }
        }
        assert forall|i: int, j: int|
            0 <= i < order.len() && 0 <= j < order.len() && i != j implies order[i]
            != order[j] by {
            assert(self.slot(kind, self.owner(kind, i)) == Some(i));
            assert(self.slot(kind, self.owner(kind, j)) == Some(j));
        }
    }

    fn ids_of(&self, kind: Kind) -> (ids: Vec<EntityId>) {
        let mut ids: Vec<EntityId> = Vec::new();
        match kind {
            Kind::I64 => {
                let mut c: usize = 0;
                while c < self.i64_values.capacity()
                    invariant
                        c <= self.i64_values@.len(),
                        ids@.len() == c,
                        forall|k: int| 0 <= k < c ==> ids@[k].id == self.i64_values@[k].0.id,
                    decreases self.i64_values@.len() - c,
                {
                    if let Ok(pair) = self.i64_values.get(c) {
                        ids.push(pair.0);
                    }
                    c += 1;
                }
            },
            Kind::Operator => {
                let mut c: usize = 0;
                while c < self.operators.capacity()
                    invariant
                        c <= self.operators@.len(),
                        ids@.len() == c,
                        forall|k: int| 0 <= k < c ==> ids@[k].id == self.operators@[k].0.id,
                    decreases self.operators@.len() - c,
                {
                    if let Ok(pair) = self.operators.get(c) {
                        ids.push(pair.0);
                    }
                    c += 1;
                }
            },
            Kind::Symbol => {
                let mut c: usize = 0;
                while c < self.symbols.capacity()
                    invariant
                        c <= self.symbols@.len(),
                        ids@.len() == c,
                        forall|k: int| 0 <= k < c ==> ids@[k].id == self.symbols@[k].0.id,
                    decreases self.symbols@.len() - c,
                {
                    if let Ok(pair) = self.symbols.get(c) {
                        ids.push(pair.0);
                    }
                    c += 1;
                }
            },
            Kind::Call => {
                let mut c: usize = 0;
                while c < self.calls.capacity()
                    invariant
                        c <= self.calls@.len(),
                        ids@.len() == c,
                        forall|k: int| 0 <= k < c ==> ids@[k].id == self.calls@[k].0.id,
                    decreases self.calls@.len() - c,
                {
                    if let Ok(pair) = self.calls.get(c) {
                        ids.push(pair.0);
                    }
                    c += 1;
                }
            },
        }
        assert(crate::compiler_context::positions(ids@) =~= self.visit_order(kind));
        ids
    }

    fn active_mem_usage(&self) -> (r: usize)
        ensures
            r == self.bytes_in_use(),
    {
        bytes_sum(
            bytes_sum(
                bytes_sum(
                    bytes_sum(
                        bytes_sum(
                            core::mem::size_of::<Ecs>(),
                            self.entities.active_mem_usage(),
                        ),
                        self.i64_values.active_mem_usage(),
                    ),
                    self.operators.active_mem_usage(),
                ),
                self.symbols.active_mem_usage(),
            ),
            self.calls.active_mem_usage(),
        )
    }

    fn mem_usage(&self) -> (r: usize)
        ensures
            r >= self.bytes_in_use(),
    {
        let entities = self.entities.mem_usage();
        let i64_values = self.i64_values.mem_usage();
        let operators = self.operators.mem_usage();
        let symbols = self.symbols.mem_usage();
        let calls = self.calls.mem_usage();
        proof {
            crate::tombstoning_arena::lemma_saturating_bytes_grow(vstd::layout::size_of::<Entity>() as int);
            crate::tombstoning_arena::lemma_saturating_bytes_grow(vstd::layout::size_of::<(EntityId, i64)>() as int);
            crate::tombstoning_arena::lemma_saturating_bytes_grow(vstd::layout::size_of::<(EntityId, Operator)>() as int);
            crate::tombstoning_arena::lemma_saturating_bytes_grow(vstd::layout::size_of::<(EntityId, Symbol)>() as int);
            crate::tombstoning_arena::lemma_saturating_bytes_grow(vstd::layout::size_of::<(EntityId, Call<EntityId>)>() as int);
        }
        bytes_sum(
            bytes_sum(
                bytes_sum(
                    bytes_sum(bytes_sum(core::mem::size_of::<Ecs>(), entities), i64_values),
                    operators,
                ),
                symbols,
            ),
            calls,
        )
    }
}

impl CompilerContext for Ecs {

}

impl Default for Ecs {
    fn default() -> (r: Self)
        ensures
            r.wf(),
            r.model() == Seq::<Option<NodeView>>::empty(),
    {
        Ecs::new()
    }
}

impl Ecs {
    pub fn new() -> (r: Self)
        ensures
            r.wf(),
            r.model() == Seq::<Option<NodeView>>::empty(),
    {
        let r = Ecs {
            entities: Arena::new(),
            i64_values: Arena::new(),
            operators: Arena::new(),
            symbols: Arena::new(),
            calls: Arena::new(),
        };
        assert(r.model() =~= Seq::<Option<NodeView>>::empty());
        r
    }
}

} // verus!

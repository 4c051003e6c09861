use crate::compiler_context::{
    lookup, CompilerContext, Fault, Model, NodeStore, Store, StoreError, StoreModel,
};
use crate::nodes::{Call, Kind, NodeKind, NodeView, Operator, Symbol};
use crate::tombstoning_arena::{
    bytes_sum, live_count, saturating_bytes, saturating_sum, Arena, ArenaError, Index,
};
use crate::typed_index::Handle;
use vstd::prelude::*;

pub mod node;

use node::Node;

verus! {

#[derive(Debug)]
pub enum AstError {
    NodeOfWrongKindError(Index, &'static str),
    InternalError(ArenaError),
}

impl StoreError for AstError {
    open spec fn fault(&self) -> Fault {
        match self {
            AstError::NodeOfWrongKindError(_, _) => Fault::WrongKind,
            AstError::InternalError(ArenaError::IndexEmpty(_, _)) => Fault::Empty,
            AstError::InternalError(ArenaError::IndexOutOfBounds(_, _)) => Fault::OutOfBounds,
        }
    }

    open spec fn subject(&self) -> nat {
        match self {
            AstError::NodeOfWrongKindError(id, _) => *id as nat,
            AstError::InternalError(ArenaError::IndexEmpty(_, id)) => *id as nat,
            AstError::InternalError(ArenaError::IndexOutOfBounds(id, _)) => *id as nat,
        }
    }

    open spec fn label(&self) -> Seq<char> {
        match self {
            AstError::NodeOfWrongKindError(_, name) => name@,
            AstError::InternalError(ArenaError::IndexEmpty(name, _)) => name@,
            AstError::InternalError(ArenaError::IndexOutOfBounds(_, _)) => Seq::empty(),
        }
    }

    open spec fn bound(&self) -> nat {
        match self {
            AstError::InternalError(ArenaError::IndexOutOfBounds(_, len)) => *len as nat,
            _ => 0,
        }
    }
}

/// The name that an error of the tree store gives to a node of `kind` that
/// was asked for: the kind's name where a node of another kind was found,
/// the name of the type of tagged nodes where none was found.
pub open spec fn ast_label(kind: Kind, fault: Fault) -> Seq<char> {
    match fault {
        Fault::WrongKind => kind_name(kind)@,
        _ => <Node as crate::typed_index::TypeLabel>::label(),
    }
}

impl From<ArenaError> for AstError {
    fn from(it: ArenaError) -> (r: Self) {
        AstError::InternalError(it)
    }
}

impl vstd::std_specs::convert::FromSpecImpl<ArenaError> for AstError {
    open spec fn obeys_from_spec() -> bool {
        true
    }

    open spec fn from_spec(it: ArenaError) -> Self {
        AstError::InternalError(it)
    }
}

/// The name under which a kind is reported when a node is of another one.
pub open spec fn kind_name(kind: Kind) -> &'static str {
    match kind {
        Kind::I64 => "I64",
        Kind::Operator => "Operator",
        Kind::Symbol => "Symbol",
        Kind::Call => "Call",
    }
}

/// The tree store: one pool of tagged nodes. An identifier is an index into
/// the pool.
#[derive(Clone, Debug)]
pub struct Ast {
    members: Arena<Node>,
}

impl Default for Ast {
    fn default() -> (r: Self)
        ensures
            r.wf(),
            r.model() == Seq::<Option<NodeView>>::empty(),
    {
        Ast::new()
    }
}

/// The model of a pool of tagged nodes.
pub open spec fn model_of(members: Seq<Option<Node>>) -> Model {
    Seq::new(
        members.len(),
        |i: int|
            match members[i] {
                Some(n) => Some(n@),
                None => None,
            },
    )
}

/// The slots of `model` from `from` on that hold a node of kind `kind`, in
/// rising order.
pub open spec fn slots_of_kind(model: Model, kind: Kind, from: nat) -> Seq<nat>
    decreases model.len() - from,
{
    if from >= model.len() {
        Seq::empty()
    } else if lookup(model, from, kind) is Found {
        seq![from].add(slots_of_kind(model, kind, from + 1))
    } else {
        slots_of_kind(model, kind, from + 1)
    }
}

pub proof fn slots_of_kind_exact(model: Model, kind: Kind, from: nat)
    ensures
        slots_of_kind(model, kind, from).no_duplicates(),
        forall|at: nat| #[trigger]
            slots_of_kind(model, kind, from).contains(at) <==> (at >= from && lookup(
                model,
                at,
                kind,
            ) is Found),
        forall|i: int, j: int|
            0 <= i < j < slots_of_kind(model, kind, from).len() ==> slots_of_kind(
                model,
                kind,
                from,
            )[i] < slots_of_kind(model, kind, from)[j],
    decreases model.len() - from,
{
    let s = slots_of_kind(model, kind, from);
    if from >= model.len() {
    } else {
        let rest = slots_of_kind(model, kind, from + 1);
        slots_of_kind_exact(model, kind, from + 1);
        if lookup(model, from, kind) is Found {
            assert(s =~= seq![from].add(rest));
            assert forall|at: nat| #[trigger] s.contains(at) <==> (at >= from && lookup(
                model,
                at,
                kind,
            ) is Found) by {
                if s.contains(at) {
                    let i = choose|i: int| 0 <= i < s.len() && s[i] == at;
                    if i > 0 {
                        assert(rest[i - 1] == at);
                        assert(rest.contains(at));
                    }
                }
                if at >= from && lookup(model, at, kind) is Found {
                    if at == from {
                        assert(s[0] == at);
                    } else {
                        assert(rest.contains(at));
                        let i = choose|i: int| 0 <= i < rest.len() && rest[i] == at;
                        assert(s[i + 1] == at);
                    }
                }
            }
            assert forall|i: int, j: int| 0 <= i < j < s.len() implies s[i] < s[j] by {
                assert(rest[j - 1] == s[j]);
                assert(rest.contains(s[j]));
                if i > 0 {
                    assert(rest[i - 1] == s[i]);
                }
            }
        } else {
            assert(s =~= rest);
        }
    }
    assert(s.no_duplicates());
}

impl Ast {
    pub fn new() -> (r: Self)
        ensures
            r.wf(),
            r.model() == Seq::<Option<NodeView>>::empty(),
    {
        let r = Ast { members: Arena::new() };
        assert(r.model() =~= Seq::<Option<NodeView>>::empty());
        r
    }

    /// The pool of tagged nodes.
    pub closed spec fn members(&self) -> Seq<Option<Node>> {
        self.members@
    }
}

impl StoreModel for Ast {
    closed spec fn model(&self) -> Model {
        model_of(self.members@)
    }

    open spec fn wf(&self) -> bool {
        true
    }
}

impl NodeStore<Index, i64, AstError> for Ast {
    open spec fn label_for(fault: Fault) -> Seq<char> {
        ast_label(Kind::I64, fault)
    }

    fn add(&mut self, value: i64) -> (id: Index) {
        let id = self.members.add_entry(Node::I64(value));
        assert(self.model() =~= old(self).model().push(Some(value.node())));
        id
    }

    fn get(&self, id: Index) -> (r: Result<&i64, AstError>)
    {
        match self.members.get(id) {
            Ok(Node::I64(value)) => Ok(value),
            Ok(_) => Err(AstError::NodeOfWrongKindError(id, "I64")),
            Err(e) => Err(AstError::InternalError(e)),
        }
    }

    fn get_mut(&mut self, id: Index) -> (r: Result<&mut i64, AstError>)
    {
        match self.members.get_mut(id) {
            Ok(node) => {
                match node {
                    Node::I64(value) => {
                        Ok(value)
                    },
                    _ => {
                        Err(AstError::NodeOfWrongKindError(id, "I64"))
                    },
                }
            },
            Err(e) => Err(AstError::InternalError(e)),
        }
    }

    fn remove(&mut self, id: Index) -> (r: Result<Option<i64>, AstError>)
    {
        match self.members.get(id) {
            Ok(Node::I64(_)) => {},
            Ok(_) => {
                assert(<Ast as NodeStore<Index, i64, AstError>>::label_for(Fault::WrongKind)
                    == "I64"@);
                return Err(AstError::NodeOfWrongKindError(id, "I64"));
            },
            Err(ArenaError::IndexEmpty(_, _)) => {
                return Ok(None);
            },
            Err(e) => {
                return Err(AstError::InternalError(e));
            },
        }
        let taken = self.members.remove(id);
        assert(self.model() =~= old(self).model().update(id as int, None));
        match taken {
            Ok(Some(Node::I64(value))) => Ok(Some(value)),
            Ok(_) => Ok(None),
            Err(e) => Err(AstError::InternalError(e)),
        }
    }

    fn overwrite(&mut self, id: Index, value: i64) -> (r: Result<Option<i64>, AstError>) {
        let mut node = Node::I64(value);
        match self.members.get_mut(id) {
            Ok(slot) => {
                std::mem::swap(slot, &mut node);
            },
            Err(e) => {
                return Err(AstError::InternalError(e));
            },
        }
        assert(self.model() =~= old(self).model().update(id as int, Some(value.node())));
        match node {
            Node::I64(old_value) => Ok(Some(old_value)),
            _ => Ok(None),
        }
    }
}

impl NodeStore<Index, Operator, AstError> for Ast {
    open spec fn label_for(fault: Fault) -> Seq<char> {
        ast_label(Kind::Operator, fault)
    }

    fn add(&mut self, value: Operator) -> (id: Index) {
        let id = self.members.add_entry(Node::Operator(value));
        assert(self.model() =~= old(self).model().push(Some(value.node())));
        id
    }

    fn get(&self, id: Index) -> (r: Result<&Operator, AstError>)
    {
        match self.members.get(id) {
            Ok(Node::Operator(value)) => Ok(value),
            Ok(_) => Err(AstError::NodeOfWrongKindError(id, "Operator")),
            Err(e) => Err(AstError::InternalError(e)),
        }
    }

    fn get_mut(&mut self, id: Index) -> (r: Result<&mut Operator, AstError>)
    {
        match self.members.get_mut(id) {
            Ok(node) => {
                match node {
                    Node::Operator(value) => {
                        Ok(value)
                    },
                    _ => {
                        Err(AstError::NodeOfWrongKindError(id, "Operator"))
                    },
                }
            },
            Err(e) => Err(AstError::InternalError(e)),
        }
    }

    fn remove(&mut self, id: Index) -> (r: Result<Option<Operator>, AstError>)
    {
        match self.members.get(id) {
            Ok(Node::Operator(_)) => {},
            Ok(_) => {
                assert(<Ast as NodeStore<Index, Operator, AstError>>::label_for(Fault::WrongKind)
                    == "Operator"@);
                return Err(AstError::NodeOfWrongKindError(id, "Operator"));
            },
            Err(ArenaError::IndexEmpty(_, _)) => {
                return Ok(None);
            },
            Err(e) => {
                return Err(AstError::InternalError(e));
            },
        }
        let taken = self.members.remove(id);
        assert(self.model() =~= old(self).model().update(id as int, None));
        match taken {
            Ok(Some(Node::Operator(value))) => Ok(Some(value)),
            Ok(_) => Ok(None),
            Err(e) => Err(AstError::InternalError(e)),
        }
    }

    fn overwrite(&mut self, id: Index, value: Operator) -> (r: Result<Option<Operator>, AstError>) {
        let mut node = Node::Operator(value);
        match self.members.get_mut(id) {
            Ok(slot) => {
                std::mem::swap(slot, &mut node);
            },
            Err(e) => {
                return Err(AstError::InternalError(e));
            },
        }
        assert(self.model() =~= old(self).model().update(id as int, Some(value.node())));
        match node {
            Node::Operator(old_value) => Ok(Some(old_value)),
            _ => Ok(None),
        }
    }
}

impl NodeStore<Index, Symbol, AstError> for Ast {
    open spec fn label_for(fault: Fault) -> Seq<char> {
        ast_label(Kind::Symbol, fault)
    }

    fn add(&mut self, value: Symbol) -> (id: Index) {
        let id = self.members.add_entry(Node::Symbol(value));
        assert(self.model() =~= old(self).model().push(Some(value.node())));
        id
    }

    fn get(&self, id: Index) -> (r: Result<&Symbol, AstError>)
    {
        match self.members.get(id) {
            Ok(Node::Symbol(value)) => Ok(value),
            Ok(_) => Err(AstError::NodeOfWrongKindError(id, "Symbol")),
            Err(e) => Err(AstError::InternalError(e)),
        }
    }

    fn get_mut(&mut self, id: Index) -> (r: Result<&mut Symbol, AstError>)
    {
        match self.members.get_mut(id) {
            Ok(node) => {
                match node {
                    Node::Symbol(value) => {
                        Ok(value)
                    },
                    _ => {
                        Err(AstError::NodeOfWrongKindError(id, "Symbol"))
                    },
                }
            },
            Err(e) => Err(AstError::InternalError(e)),
        }
    }

    fn remove(&mut self, id: Index) -> (r: Result<Option<Symbol>, AstError>)
    {
        match self.members.get(id) {
            Ok(Node::Symbol(_)) => {},
            Ok(_) => {
                assert(<Ast as NodeStore<Index, Symbol, AstError>>::label_for(Fault::WrongKind)
                    == "Symbol"@);
                return Err(AstError::NodeOfWrongKindError(id, "Symbol"));
            },
            Err(ArenaError::IndexEmpty(_, _)) => {
                return Ok(None);
            },
            Err(e) => {
                return Err(AstError::InternalError(e));
            },
        }
        let taken = self.members.remove(id);
        assert(self.model() =~= old(self).model().update(id as int, None));
        match taken {
            Ok(Some(Node::Symbol(value))) => Ok(Some(value)),
            Ok(_) => Ok(None),
            Err(e) => Err(AstError::InternalError(e)),
        }
    }

    fn overwrite(&mut self, id: Index, value: Symbol) -> (r: Result<Option<Symbol>, AstError>) {
        let mut node = Node::Symbol(value);
        match self.members.get_mut(id) {
            Ok(slot) => {
                std::mem::swap(slot, &mut node);
            },
            Err(e) => {
                return Err(AstError::InternalError(e));
            },
        }
        assert(self.model() =~= old(self).model().update(id as int, Some(value.node())));
        match node {
            Node::Symbol(old_value) => Ok(Some(old_value)),
            _ => Ok(None),
        }
    }
}

impl NodeStore<Index, Call<Index>, AstError> for Ast {
    open spec fn label_for(fault: Fault) -> Seq<char> {
        ast_label(Kind::Call, fault)
    }

    fn add(&mut self, value: Call<Index>) -> (id: Index) {
        let id = self.members.add_entry(Node::Call(value));
        assert(self.model() =~= old(self).model().push(Some(value.node())));
        id
    }

    fn get(&self, id: Index) -> (r: Result<&Call<Index>, AstError>)
    {
        match self.members.get(id) {
            Ok(Node::Call(value)) => Ok(value),
            Ok(_) => Err(AstError::NodeOfWrongKindError(id, "Call")),
            Err(e) => Err(AstError::InternalError(e)),
        }
    }

    fn get_mut(&mut self, id: Index) -> (r: Result<&mut Call<Index>, AstError>)
    {
        match self.members.get_mut(id) {
            Ok(node) => {
                match node {
                    Node::Call(value) => {
                        Ok(value)
                    },
                    _ => {
                        Err(AstError::NodeOfWrongKindError(id, "Call"))
                    },
                }
            },
            Err(e) => Err(AstError::InternalError(e)),
        }
    }

    fn remove(&mut self, id: Index) -> (r: Result<Option<Call<Index>>, AstError>)
    {
        match self.members.get(id) {
            Ok(Node::Call(_)) => {},
            Ok(_) => {
                assert(<Ast as NodeStore<Index, Call<Index>, AstError>>::label_for(Fault::WrongKind)
                    == "Call"@);
                return Err(AstError::NodeOfWrongKindError(id, "Call"));
            },
            Err(ArenaError::IndexEmpty(_, _)) => {
                return Ok(None);
            },
            Err(e) => {
                return Err(AstError::InternalError(e));
            },
        }
        let taken = self.members.remove(id);
        assert(self.model() =~= old(self).model().update(id as int, None));
        match taken {
            Ok(Some(Node::Call(value))) => Ok(Some(value)),
            Ok(_) => Ok(None),
            Err(e) => Err(AstError::InternalError(e)),
        }
    }

    fn overwrite(&mut self, id: Index, value: Call<Index>) -> (r: Result<Option<Call<Index>>, AstError>) {
        let mut node = Node::Call(value);
        match self.members.get_mut(id) {
            Ok(slot) => {
                std::mem::swap(slot, &mut node);
            },
            Err(e) => {
                return Err(AstError::InternalError(e));
            },
        }
        assert(self.model() =~= old(self).model().update(id as int, Some(value.node())));
        match node {
            Node::Call(old_value) => Ok(Some(old_value)),
            _ => Ok(None),
        }
    }
}

impl Store for Ast {
    type ID = Index;

    type E = AstError;

    fn new() -> (r: Self) {
        Ast::new()
    }

    fn node_count(&self) -> (r: usize) {
        self.members.capacity()
    }

    open spec fn visit_order(&self, kind: Kind) -> Seq<nat> {
        slots_of_kind(self.model(), kind, 0)
    }

    proof fn visit_order_exact(&self, kind: Kind) {
        slots_of_kind_exact(self.model(), kind, 0);
    }

    fn ids_of(&self, kind: Kind) -> (ids: Vec<Index>) {
        let mut ids: Vec<Index> = Vec::new();
        let len = self.members.capacity();
        let mut i: usize = len;
        while i > 0
            invariant
                i <= len,
                len == self.model().len(),
                Seq::new(ids@.len(), |k: int| ids@[ids@.len() - 1 - k].index()) == slots_of_kind(
                    self.model(),
                    kind,
                    i as nat,
                ),
            decreases i,
        {
            i -= 1;
            let found = match self.members.get(i) {
                Ok(Node::I64(_)) => kind == Kind::I64,
                Ok(Node::Operator(_)) => kind == Kind::Operator,
                Ok(Node::Symbol(_)) => kind == Kind::Symbol,
                Ok(Node::Call(_)) => kind == Kind::Call,
                Err(_) => false,
            };
            let ghost before = ids@;
            if found {
                ids.push(i);
                assert(Seq::new(ids@.len(), |k: int| ids@[ids@.len() - 1 - k].index()) =~= seq![
                    i as nat,
                ].add(Seq::new(before.len(), |k: int| before[before.len() - 1 - k].index())));
            }
        }
        // the slots were gathered from the last to the first
        let mut out: Vec<Index> = Vec::new();
        let mut k: usize = ids.len();
        while k > 0
            invariant
                k <= ids@.len(),
                out@.len() == ids@.len() - k,
                forall|j: int| 0 <= j < out@.len() ==> out@[j] == ids@[ids@.len() - 1 - j],
            decreases k,
        {
            k -= 1;
            out.push(ids[k]);
        }
        assert(crate::compiler_context::positions(out@) =~= Seq::new(
            ids@.len(),
            |k: int| ids@[ids@.len() - 1 - k].index(),
        ));
        out
    }

    fn active_mem_usage(&self) -> (r: usize)
        ensures
            r == saturating_sum(
                vstd::layout::size_of::<Ast>() as int,
                saturating_bytes(
                    live_count(self.members()) as int,
                    vstd::layout::size_of::<Node>() as int,
                ),
            ),
    {
        bytes_sum(core::mem::size_of::<Ast>(), self.members.active_mem_usage())
    }

    fn mem_usage(&self) -> (r: usize)
        ensures
            exists|slots: int|
                slots >= self.model().len() && r == saturating_sum(
                    vstd::layout::size_of::<Ast>() as int,
                    saturating_bytes(slots, vstd::layout::size_of::<Node>() as int),
                ),
    {
        let pool = self.members.mem_usage();
        let ghost slots = choose|slots: int|
            slots >= self.members@.len() && pool == saturating_bytes(
                slots,
                vstd::layout::size_of::<Node>() as int,
            );
        let r = bytes_sum(core::mem::size_of::<Ast>(), pool);
        assert(slots >= self.model().len() && r == saturating_sum(
            vstd::layout::size_of::<Ast>() as int,
            saturating_bytes(slots, vstd::layout::size_of::<Node>() as int),
        ));
        r
    }
}

impl CompilerContext for Ast {

}

} // verus!

use crate::nodes::{Call, NodeView, Operator, Symbol};
use crate::tombstoning_arena::Index;
use crate::typed_index::TypeLabel;
use vstd::prelude::*;
use vstd::string::*;

verus! {

/// A node of the tree store: one of the four kinds under a tag.
#[derive(Clone, Debug)]
pub enum Node {
    I64(i64),
    Operator(Operator),
    Symbol(Symbol),
    Call(Call<Index>),
}

impl View for Node {
    type V = NodeView;

    open spec fn view(&self) -> NodeView {
        match self {
            Node::I64(v) => NodeView::I64(*v),
            Node::Operator(v) => NodeView::Operator(*v),
            Node::Symbol(v) => NodeView::Symbol(v@),
            Node::Call(v) => NodeView::Call(v@),
        }
    }
}

impl TypeLabel for Node {
    open spec fn label() -> Seq<char> {
        "steel::ast::node::Node"@
    }

    fn type_label() -> (r: String) {
        let r = String::from_str("steel::ast::node::Node");
        assert(r@ == "steel::ast::node::Node"@);
        assert(Self::label() == "steel::ast::node::Node"@);
        r
    }
}

impl From<i64> for Node {
    fn from(it: i64) -> (r: Self) {
        Node::I64(it)
    }
}

impl vstd::std_specs::convert::FromSpecImpl<i64> for Node {
    open spec fn obeys_from_spec() -> bool {
        true
    }

    open spec fn from_spec(it: i64) -> Self {
        Node::I64(it)
    }
}

impl From<Operator> for Node {
    fn from(it: Operator) -> (r: Self) {
        Node::Operator(it)
    }
}

impl vstd::std_specs::convert::FromSpecImpl<Operator> for Node {
    open spec fn obeys_from_spec() -> bool {
        true
    }

    open spec fn from_spec(it: Operator) -> Self {
        Node::Operator(it)
    }
}

impl From<Symbol> for Node {
    fn from(it: Symbol) -> (r: Self) {
        Node::Symbol(it)
    }
}

impl vstd::std_specs::convert::FromSpecImpl<Symbol> for Node {
    open spec fn obeys_from_spec() -> bool {
        true
    }

    open spec fn from_spec(it: Symbol) -> Self {
        Node::Symbol(it)
    }
}

impl From<Call<Index>> for Node {
    fn from(it: Call<Index>) -> (r: Self) {
        Node::Call(it)
    }
}

impl vstd::std_specs::convert::FromSpecImpl<Call<Index>> for Node {
    open spec fn obeys_from_spec() -> bool {
        true
    }

    open spec fn from_spec(it: Call<Index>) -> Self {
        Node::Call(it)
    }
}

} // verus!

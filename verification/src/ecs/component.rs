use super::providers::{ComponentId, EntityId};
use crate::nodes::{Call, Kind, Operator, Symbol};
use crate::typed_index::{Handle, TypeLabel};
use vstd::prelude::*;
use vstd::string::*;

verus! {

/// The record of an entity: for each kind of node, the component of that
/// kind that the entity owns, if it owns one.
#[derive(Debug, Clone, Hash, PartialEq, Eq)]
pub struct Entity {
    pub operator: Option<ComponentId<Operator>>,
    pub symbol: Option<ComponentId<Symbol>>,
    pub call: Option<ComponentId<Call<EntityId>>>,
    pub i_64: Option<ComponentId<i64>>,
}

impl Entity {
    /// Where in the pool of `kind` the component lies that the entity owns,
    /// if it owns one of that kind.
    pub open spec fn component(self, kind: Kind) -> Option<nat> {
        match kind {
            Kind::I64 => match self.i_64 {
                Some(c) => Some(c.index()),
                None => None,
            },
            Kind::Operator => match self.operator {
                Some(c) => Some(c.index()),
                None => None,
            },
            Kind::Symbol => match self.symbol {
                Some(c) => Some(c.index()),
                None => None,
            },
            Kind::Call => match self.call {
                Some(c) => Some(c.index()),
                None => None,
            },
        }
    }
}

impl Default for Entity {
    /// An entity that owns nothing.
    fn default() -> (r: Self)
        ensures
            r.operator is None,
            r.symbol is None,
            r.call is None,
            r.i_64 is None,
    {
        Entity { operator: None, symbol: None, call: None, i_64: None }
    }
}

impl TypeLabel for Entity {
    open spec fn label() -> Seq<char> {
        "steel::ecs::component::Entity"@
    }

    fn type_label() -> (r: String) {
        let r = String::from_str("steel::ecs::component::Entity");
        assert(r@ == "steel::ecs::component::Entity"@);
        assert(Self::label() == "steel::ecs::component::Entity"@);
        r
    }
}

} // verus!

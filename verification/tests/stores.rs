use steel::ast::node::Node;
use steel::ast::{Ast, AstError};
use steel::compiler_context::{
    CompilerContext, Model, NodeStore, Position, Store, Visitor,
};
use steel::ecs::providers::{EntityId, Provider};
use steel::ecs::{Ecs, EcsError};
use steel::nodes::{Call, Kind, NodeView, Operator, Symbol};
use steel::ecs::arena_providers::ArenaProvider;
use steel::tombstoning_arena::{Arena, ArenaError};
use steel::typed_index::{short_name, typed_descriptor, TypedIndex};

#[test]
fn ast_can_construct_node() {
    let mut ctx: Arena<Node> = Arena::new();

    let hello = ctx.add(Symbol::new("hello"));

    assert_eq!(
        format!("{:?}", ctx.get(hello)),
        "Ok(Symbol(Symbol { name: \"hello\" }))"
    );
}

#[test]
fn ast_can_construct_nodes() {
    let mut ctx: Arena<Node> = Arena::new();

    let hello = ctx.add(Symbol::new("hello"));
    let world = ctx.add(Symbol::new("world"));

    assert_eq!(
        format!("{:?}", ctx.get(hello)),
        "Ok(Symbol(Symbol { name: \"hello\" }))"
    );
    assert_eq!(
        format!("{:?}", ctx.get(world)),
        "Ok(Symbol(Symbol { name: \"world\" }))"
    );
}

#[test]
fn node_can_construct_node() {
    let mut ctx: Arena<Node> = Arena::new();

    let hello = ctx.add(Symbol::new("hello"));

    assert_eq!(
        format!("{:?}", ctx.get(hello)),
        "Ok(Symbol(Symbol { name: \"hello\" }))"
    );
}

#[test]
fn node_can_construct_nodes() {
    let mut ctx: Arena<Node> = Arena::new();

    let hello = ctx.add(Symbol::new("hello"));
    let world = ctx.add(Symbol::new("world"));

    assert_eq!(
        format!("{:?}", ctx.get(hello)),
        "Ok(Symbol(Symbol { name: \"hello\" }))"
    );
    assert_eq!(
        format!("{:?}", ctx.get(world)),
        "Ok(Symbol(Symbol { name: \"world\" }))"
    );
}

#[test]
fn node_can_construct_nodes_with_cross_reference() -> Result<(), ArenaError> {
    let mut ctx: Arena<Node> = Arena::new();

    let hello = ctx.add(Symbol::new("hello"));
    let world = ctx.add(Symbol::new("world"));
    let reference = ctx.add(Call::new(hello, vec![("arg_0".to_string(), world)]));

    assert_eq!(
        format!("{:?}", ctx.get(reference)),
        format!(
            "Ok(Call(Call {{ callee: {:?}, args: [(\"arg_0\", {:?})], left: Some({:?}), right: None }}))",
            hello, world, world
        )
    );
    Ok(())
}

#[test]
fn node_can_construct_values() -> Result<(), ArenaError> {
    let mut ctx: Arena<Node> = Arena::new();

    let plus = ctx.add(Symbol::new("plus"));
    let a = ctx.add(32i64);
    let b = ctx.add(12i64);
    let reference = ctx.add(Call::new(
        plus,
        vec![("arg_0".to_string(), a), ("arg_1".to_string(), b)],
    ));

    assert_eq!(
        format!("{:?}", ctx.get(reference)),
        format!(
            "Ok(Call(Call {{ callee: {:?}, args: [(\"arg_0\", {:?}), (\"arg_1\", {:?})], left: Some({:?}), right: Some({:?}) }}))",
            plus, a, b, a, b
        )
    );
    Ok(())
}

#[test]
fn mod_can_construct_node() {
    let mut ctx: Ast = Ast::new();

    let hello = ctx.add(Symbol::new("hello"));

    assert_eq!(
        format!("{:?}", ctx.get_symbol(hello)),
        "Ok(Symbol { name: \"hello\" })"
    );
}

#[test]
fn can_construct_node() -> Result<(), EcsError> {
    let mut ctx: Ecs = Ecs::new();

    let hello = ctx.add(Symbol::new("hello"));

    let sym: &Symbol = ctx.get(hello)?;
    assert_eq!(format!("{:?}", sym), "Symbol { name: \"hello\" }");
    Ok(())
}

#[test]
fn ecs_can_construct_node() -> Result<(), EcsError> {
    let mut ctx: Ecs = Ecs::new();

    let hello = ctx.add(Symbol::new("hello"));

    let sym: &Symbol = ctx.get(hello)?;
    assert_eq!(format!("{:?}", sym), "Symbol { name: \"hello\" }");
    Ok(())
}

#[test]
fn mod_can_construct_nodes() {
    let mut ctx: Ast = Ast::new();

    let hello = ctx.add(Symbol::new("hello"));
    let world = ctx.add(Symbol::new("world"));

    assert_eq!(
        format!("{:?}", ctx.get_symbol(hello)),
        "Ok(Symbol { name: \"hello\" })"
    );
    assert_eq!(
        format!("{:?}", ctx.get_symbol(world)),
        "Ok(Symbol { name: \"world\" })"
    );
}

#[test]
fn can_construct_nodes() {
    let mut ctx: Ecs = Ecs::new();

    let hello = ctx.add(Symbol::new("hello"));
    let world = ctx.add(Symbol::new("world"));

    assert_eq!(
        format!("{:?}", ctx.get_symbol(hello)),
        "Ok(Symbol { name: \"hello\" })"
    );
    assert_eq!(
        format!("{:?}", ctx.get_symbol(world)),
        "Ok(Symbol { name: \"world\" })"
    );
}

#[test]
fn ecs_can_construct_nodes() {
    let mut ctx: Ecs = Ecs::new();

    let hello = ctx.add(Symbol::new("hello"));
    let world = ctx.add(Symbol::new("world"));

    assert_eq!(
        format!("{:?}", ctx.get_symbol(hello)),
        "Ok(Symbol { name: \"hello\" })"
    );
    assert_eq!(
        format!("{:?}", ctx.get_symbol(world)),
        "Ok(Symbol { name: \"world\" })"
    );
}

#[test]
fn canot_accidentally_cast_to_different_node_type() {
    let mut ctx: Ast = Ast::new();

    let hello = ctx.add(Symbol::new("hello"));

    assert_eq!(
        format!("{:?}", ctx.get_call(hello)),
        format!("Err(NodeOfWrongKindError({:?}, \"Call\"))", hello)
    );
}

#[test]
fn mod_cannot_access_incorrect_node() {
    let mut ctx: Ecs = Ecs::new();
    let hello = ctx.add(Symbol::new("hello"));
    let call: Result<&Call<EntityId>, EcsError> = ctx.get(hello);
    assert_eq!(
        format!("{:?}", call),
        format!("Err(ComponentNotFound(\"steel::nodes::Call<steel::typed_index::TypedIndex<steel::ecs::component::Entity>>\", {:?}))", hello)
    );
}

#[test]
fn mod_can_construct_nodes_with_cross_reference() -> Result<(), ArenaError> {
    let mut ctx: Ast = Ast::new();

    let hello = ctx.add(Symbol::new("hello"));
    let world = ctx.add(Symbol::new("world"));
    let reference = ctx.add(Call::new(hello, vec![("arg_0".to_string(), world)]));

    assert_eq!(
        format!("{:?}", ctx.get_call(reference)),
        format!(
            "Ok(Call {{ callee: {:?}, args: [(\"arg_0\", {:?})], left: Some({:?}), right: None }})",
            hello, world, world
        )
    );
    Ok(())
}

#[test]
fn can_construct_nodes_with_cross_reference() {
    let mut ctx: Ecs = Ecs::new();

    let hello = ctx.add(Symbol::new("hello"));
    let world = ctx.add(Symbol::new("world"));
    let reference = ctx.add(Call::new(hello, vec![("arg_0".to_string(), world)]));

    assert_eq!(
        format!("{:?}", ctx.get_call(reference)),
        format!(
            "Ok(Call {{ callee: {:?}, args: [(\"arg_0\", {:?})], left: Some({:?}), right: None }})",
            hello, world, world
        )
    );
}

#[test]
fn mod_can_construct_values() -> Result<(), ArenaError> {
    let mut ctx: Ast = Ast::new();

    let plus = ctx.add(Symbol::new("plus"));
    let a = ctx.add(32i64);
    let b = ctx.add(12i64);
    let reference = ctx.add(Call::new(
        plus,
        vec![("arg_0".to_string(), a), ("arg_1".to_string(), b)],
    ));

    assert_eq!(
        format!("{:?}", ctx.get_call(reference)),
        format!(
            "Ok(Call {{ callee: {:?}, args: [(\"arg_0\", {:?}), (\"arg_1\", {:?})], left: Some({:?}), right: Some({:?}) }})",
            plus, a, b, a, b
        )
    );
    Ok(())
}

#[test]
fn can_construct_values() {
    let mut ctx: Ecs = Ecs::new();

    let plus = ctx.add(Symbol::new("plus"));
    let a = ctx.add(32i64);
    let b = ctx.add(12i64);
    let reference = ctx.add(Call::new(
        plus,
        vec![("arg_0".to_string(), a), ("arg_1".to_string(), b)],
    ));

    assert_eq!(
        format!("{:?}", ctx.get_call(reference)),
        format!(
            "Ok(Call {{ callee: {:?}, args: [(\"arg_0\", {:?}), (\"arg_1\", {:?})], left: Some({:?}), right: Some({:?}) }})",
            plus, a, b, a, b,
        )
    );
}

fn ast_kind(e: &AstError) -> &'static str {
    match e {
        AstError::NodeOfWrongKindError(_, _) => "wrong kind",
        AstError::InternalError(ArenaError::IndexEmpty(_, _)) => "empty",
        AstError::InternalError(ArenaError::IndexOutOfBounds(_, _)) => "out of bounds",
    }
}

fn ecs_kind(e: &EcsError) -> &'static str {
    match e {
        EcsError::ComponentNotFound(_, _) => "wrong kind",
        EcsError::InternalError(steel::compact_arena::ArenaError::IndexEmpty(_, _)) => "empty",
        EcsError::InternalError(steel::compact_arena::ArenaError::IndexOutOfBounds(_, _)) => {
            "out of bounds"
        }
    }
}

#[test]
fn a_typed_read_tells_the_four_cases_apart_in_the_tree_store() {
    let mut ctx = Ast::new();
    let number = ctx.add(7i64);
    let name = ctx.add(Symbol::new("x"));
    let op = ctx.add(Operator::Mul);
    let call = ctx.add(Call::new(op, vec![("arg_0".to_string(), number)]));
    assert_eq!(ctx.get_i64(number).ok(), Some(&7));
    assert_eq!(ctx.get_operator(op).ok(), Some(&Operator::Mul));
    assert_eq!(ctx.get_symbol(name).ok(), Some(&Symbol::new("x")));
    assert_eq!(ctx.get_call(call).map(|c| c.callee).ok(), Some(op));
    assert_eq!(ctx.get_i64(name).map_err(|e| ast_kind(&e)), Err("wrong kind"));
    assert_eq!(ctx.get_call(number).map_err(|e| ast_kind(&e)).err(), Some("wrong kind"));
    assert_eq!(ctx.get_i64(17).map_err(|e| ast_kind(&e)), Err("out of bounds"));
    // removing as the wrong kind removes nothing
    let wrong: Result<Option<Symbol>, AstError> = ctx.remove(number);
    assert_eq!(wrong.map_err(|e| ast_kind(&e)), Err("wrong kind"));
    assert_eq!(ctx.get_i64(number).ok(), Some(&7));
    let taken: Result<Option<i64>, AstError> = ctx.remove(number);
    assert_eq!(taken.ok(), Some(Some(7)));
    assert_eq!(ctx.get_i64(number).map_err(|e| ast_kind(&e)), Err("empty"));
    let again: Result<Option<i64>, AstError> = ctx.remove(number);
    assert_eq!(again.ok(), Some(None));
    // the identifier is not handed out again, and the node is not revived
    let next = ctx.add(8i64);
    assert_eq!(next, 4);
    assert_eq!(ctx.replace(number, 9i64).map_err(|e| ast_kind(&e)), Err("empty"));
    assert_eq!(ctx.replace(99, 9i64).map_err(|e| ast_kind(&e)), Err("out of bounds"));
    // a replacement changes the kind in place
    assert!(ctx.replace(call, 42i64).is_ok());
    assert_eq!(ctx.get_i64(call).ok(), Some(&42));
    assert_eq!(ctx.get_call(call).map_err(|e| ast_kind(&e)).err(), Some("wrong kind"));
    if let Ok(v) = ctx.get_i64_mut(call) {
        *v += 1;
    }
    assert_eq!(ctx.get_i64(call).ok(), Some(&43));
    assert_eq!(ctx.node_count(), 5);
    assert!(ctx.mem_usage() >= ctx.active_mem_usage());
}

#[test]
fn a_typed_read_tells_the_four_cases_apart_in_the_component_store() {
    let mut ctx = Ecs::new();
    let number = ctx.add(7i64);
    let name = ctx.add(Symbol::new("x"));
    let op = ctx.add(Operator::Mul);
    let call = ctx.add(Call::new(op, vec![("arg_0".to_string(), number)]));
    assert_eq!(ctx.get_i64(number).ok(), Some(&7));
    assert_eq!(ctx.get_operator(op).ok(), Some(&Operator::Mul));
    assert_eq!(ctx.get_symbol(name).ok(), Some(&Symbol::new("x")));
    assert_eq!(ctx.get_call(call).map(|c| c.callee).ok(), Some(op));
    assert_eq!(ctx.get_i64(name).map_err(|e| ecs_kind(&e)), Err("wrong kind"));
    assert_eq!(ctx.get_call(number).map_err(|e| ecs_kind(&e)).err(), Some("wrong kind"));
    assert_eq!(
        ctx.get_i64(EntityId::new(17)).map_err(|e| ecs_kind(&e)),
        Err("out of bounds")
    );
    let wrong: Result<Option<Symbol>, EcsError> = ctx.remove(number);
    assert_eq!(wrong.map_err(|e| ecs_kind(&e)), Err("wrong kind"));
    assert_eq!(ctx.get_i64(number).ok(), Some(&7));
    let taken: Result<Option<i64>, EcsError> = ctx.remove(number);
    assert_eq!(taken.ok(), Some(Some(7)));
    assert_eq!(ctx.get_i64(number).map_err(|e| ecs_kind(&e)), Err("empty"));
    let again: Result<Option<i64>, EcsError> = ctx.remove(number);
    assert_eq!(again.ok(), Some(None));
    let next = ctx.add(8i64);
    assert_eq!(next, EntityId::new(4));
    assert_eq!(ctx.replace(number, 9i64).map_err(|e| ecs_kind(&e)), Err("empty"));
    assert_eq!(
        ctx.replace(EntityId::new(99), 9i64).map_err(|e| ecs_kind(&e)),
        Err("out of bounds")
    );
    assert!(ctx.replace(call, 42i64).is_ok());
    assert_eq!(ctx.get_i64(call).ok(), Some(&42));
    assert_eq!(ctx.get_call(call).map_err(|e| ecs_kind(&e)).err(), Some("wrong kind"));
    if let Ok(v) = ctx.get_i64_mut(call) {
        *v += 1;
    }
    assert_eq!(ctx.get_i64(call).ok(), Some(&43));
    assert_eq!(ctx.node_count(), 5);
    assert!(ctx.mem_usage() >= ctx.active_mem_usage());
}

#[test]
fn the_component_store_keeps_its_links_when_components_move() {
    let mut ctx = Ecs::new();
    let a = ctx.add(1i64);
    let b = ctx.add(2i64);
    let c = ctx.add(3i64);
    let d = ctx.add(4i64);
    // `a` leaves the pool of integers; the last integer moves into its place
    let gone: Result<Option<i64>, EcsError> = ctx.remove(a);
    assert_eq!(gone.ok(), Some(Some(1)));
    assert_eq!(ctx.get_i64(b).ok(), Some(&2));
    assert_eq!(ctx.get_i64(c).ok(), Some(&3));
    assert_eq!(ctx.get_i64(d).ok(), Some(&4));
    assert_eq!(ctx.ids_of(Kind::I64), vec![d, b, c]);
    // `d` changes its kind; the pools stay without holes
    assert!(ctx.replace(d, Symbol::new("d")).is_ok());
    assert_eq!(ctx.ids_of(Kind::I64), vec![c, b]);
    assert_eq!(ctx.ids_of(Kind::Symbol), vec![d]);
    assert_eq!(ctx.get_symbol(d).ok(), Some(&Symbol::new("d")));
    assert_eq!(ctx.get_i64(b).ok(), Some(&2));
    assert_eq!(ctx.get_i64(c).ok(), Some(&3));
    // overwriting with the same kind hands the old node back
    let old: Result<Option<i64>, EcsError> = ctx.overwrite(b, 20i64);
    assert_eq!(old.ok(), Some(Some(2)));
    let none: Result<Option<i64>, EcsError> = ctx.overwrite(d, 40i64);
    assert_eq!(none.ok(), Some(None));
    assert_eq!(ctx.get_i64(d).ok(), Some(&40));
}

#[test]
fn the_tree_store_visits_in_index_order() {
    let mut ctx = Ast::new();
    let a = ctx.add(1i64);
    let s = ctx.add(Symbol::new("s"));
    let b = ctx.add(2i64);
    let c = ctx.add(3i64);
    assert_eq!(ctx.ids_of(Kind::I64), vec![a, b, c]);
    assert_eq!(ctx.ids_of(Kind::Symbol), vec![s]);
    assert_eq!(ctx.ids_of(Kind::Call), Vec::<usize>::new());
    let gone: Result<Option<i64>, AstError> = ctx.remove(b);
    assert_eq!(gone.ok(), Some(Some(2)));
    assert!(ctx.replace(a, Operator::Add).is_ok());
    assert_eq!(ctx.ids_of(Kind::I64), vec![c]);
    assert_eq!(ctx.ids_of(Kind::Operator), vec![a]);
    let old: Result<Option<i64>, AstError> = ctx.overwrite(c, 30i64);
    assert_eq!(old.ok(), Some(Some(3)));
    let none: Result<Option<i64>, AstError> = ctx.overwrite(s, 5i64);
    assert_eq!(none.ok(), Some(None));
    assert_eq!(ctx.ids_of(Kind::I64), vec![s, c]);
}

#[test]
fn mod_can_construct_nodes_with_self_reference() {
    let mut ctx: Ecs = Ecs::new();

    let reference = ctx.add_with_id(|id| Call::new(id, vec![]));

    assert_eq!(
        format!("{:?}", ctx.get_call(reference)),
        format!(
            "Ok(Call {{ callee: {:?}, args: [], left: None, right: None }})",
            reference
        )
    );
}

/// Counts what it is shown and doubles the integers.
struct Doubler {
    seen: Vec<usize>,
}

impl<C: Store<ID = usize>> Visitor<C, usize, i64> for Doubler {
    type State = ();

    fn state(&self) {}

    fn after(_: (), _: Model, _: Position, _: NodeView) -> ((), Model, NodeView) {
        unreachable!()
    }

    fn visit(&mut self, _store: &mut C, id: usize, value: &mut i64) {
        self.seen.push(id);
        *value *= 2;
    }
}

/// Turns each symbol into an integer, in the store itself.
struct Renamer {
    seen: Vec<EntityId>,
}

impl Visitor<Ecs, EntityId, Symbol> for Renamer {
    type State = ();

    fn state(&self) {}

    fn after(_: (), _: Model, _: Position, _: NodeView) -> ((), Model, NodeView) {
        unreachable!()
    }

    fn visit(&mut self, store: &mut Ecs, id: EntityId, value: &mut Symbol) {
        self.seen.push(id);
        value.name.push('!');
        let _ = store.replace(id, self.seen.len() as i64);
    }
}

#[test]
fn a_pass_shows_each_node_of_its_kind_once() {
    let mut ctx = Ast::new();
    let a = ctx.add(1i64);
    let _s = ctx.add(Symbol::new("s"));
    let b = ctx.add(2i64);
    let mut doubler = Doubler { seen: Vec::new() };
    assert!(ctx.for_each_i64(&mut doubler).is_ok());
    assert_eq!(doubler.seen, vec![a, b]);
    assert_eq!(ctx.get_i64(a).ok(), Some(&2));
    assert_eq!(ctx.get_i64(b).ok(), Some(&4));

    // a node that is replaced while it is shown is not shown again, and
    // what it was replaced by stays
    let mut ctx = Ecs::new();
    let x = ctx.add(Symbol::new("x"));
    let n = ctx.add(5i64);
    let y = ctx.add(Symbol::new("y"));
    let mut renamer = Renamer { seen: Vec::new() };
    assert!(ctx.for_each_symbol(&mut renamer).is_ok());
    assert_eq!(renamer.seen, vec![x, y]);
    assert_eq!(ctx.get_i64(x).ok(), Some(&1));
    assert_eq!(ctx.get_i64(y).ok(), Some(&2));
    assert_eq!(ctx.get_i64(n).ok(), Some(&5));
    assert_eq!(ctx.ids_of(Kind::Symbol), Vec::<EntityId>::new());

    // the four passes in one
    let mut ctx = Ast::new();
    let a = ctx.add(10i64);
    let b = ctx.add(20i64);
    let mut doubler = Some(Doubler { seen: Vec::new() });
    let mut none_op: Option<Nothing> = None;
    let mut none_sym: Option<Nothing> = None;
    let mut none_call: Option<Nothing> = None;
    assert!(ctx
        .for_each(&mut doubler, &mut none_op, &mut none_sym, &mut none_call)
        .is_ok());
    assert_eq!(doubler.map(|d| d.seen), Some(vec![a, b]));
    assert_eq!(ctx.get_i64(b).ok(), Some(&40));
}

/// A visitor that is never there.
struct Nothing;

impl<C: Store<ID = usize>, T: steel::nodes::NodeKind> Visitor<C, usize, T> for Nothing {
    type State = ();

    fn state(&self) {}

    fn after(_: (), _: Model, _: Position, _: NodeView) -> ((), Model, NodeView) {
        unreachable!()
    }

    fn visit(&mut self, _store: &mut C, _id: usize, _value: &mut T) {}
}

#[test]
fn a_descriptor_is_the_short_name_of_a_type() {
    assert_eq!(typed_descriptor::<i64>(), "i64");
    assert_eq!(typed_descriptor::<Symbol>(), "Symbol");
    assert_eq!(typed_descriptor::<Call<EntityId>>(), "Call");
    assert_eq!(typed_descriptor::<TypedIndex<Node>>(), "TypedIndex");
    assert_eq!(short_name("a::b::C<d::E>"), "C");
    assert_eq!(short_name("a::b::"), "");
    assert_eq!(short_name("<x>"), "");
    assert_eq!(short_name("a:b"), "a:b");
    assert_eq!(short_name(""), "");
}

#[test]
fn components_can_be_reached_by_their_own_handles() {
    let mut ctx = Ecs::new();
    let a = ctx.add_component(1i64);
    let b: EntityId = ctx.add_with_id(|id: EntityId| id.id as i64 + 10);
    let s = ctx.add_component(Symbol::new("s"));
    assert_eq!(
        <Ecs as Provider<i64>>::get_component(&ctx, TypedIndex::new(1)).ok(),
        Some(&11)
    );
    if let Ok(v) = <Ecs as Provider<i64>>::get_component_mut(&mut ctx, TypedIndex::new(0)) {
        *v = 5;
    }
    assert_eq!(ctx.get_i64(a).ok(), Some(&5));
    assert!(<Ecs as Provider<i64>>::get_component(&ctx, TypedIndex::new(2)).is_err());
    let taken: Result<i64, EcsError> = ctx.remove_component_for_entity(a);
    assert_eq!(taken.ok(), Some(5));
    let again: Result<i64, EcsError> = ctx.remove_component_for_entity(a);
    assert_eq!(again.map_err(|e| ecs_kind(&e)), Err("empty"));
    let wrong: Result<i64, EcsError> = ctx.remove_impl(s);
    assert_eq!(wrong.map_err(|e| ecs_kind(&e)), Err("wrong kind"));
    assert!(ctx.overwrite_entity(s, |_id: EntityId| Operator::Sub).is_ok());
    assert_eq!(ctx.get_operator(s).ok(), Some(&Operator::Sub));
    assert!(ctx.overwrite_entity(a, |_id: EntityId| Operator::Sub).is_err());
    let (entities, pool) = <Ecs as ArenaProvider<i64>>::arena(&ctx);
    assert_eq!(entities.capacity(), 3);
    assert_eq!(pool.capacity(), 1);
    assert_eq!(pool.get(0).map(|pair| pair.0).ok(), Some(b));
    let made = <Ecs as ArenaProvider<Symbol>>::make_entity(TypedIndex::new(4));
    assert_eq!(made.symbol, Some(TypedIndex::new(4)));
    assert!(made.call.is_none() && made.i_64.is_none() && made.operator.is_none());
    assert_eq!(<Ecs as ArenaProvider<Symbol>>::get_impl(&ctx, b).map_err(|e| ecs_kind(&e)).err(), Some("wrong kind"));
}

/// Writes down which nodes it is shown.
struct Recorder {
    seen: Vec<usize>,
}

impl<C: Store<ID = usize>, T: steel::nodes::NodeKind> Visitor<C, usize, T> for Recorder {
    type State = ();

    fn state(&self) {}

    fn after(_: (), _: Model, _: Position, _: NodeView) -> ((), Model, NodeView) {
        unreachable!()
    }

    fn visit(&mut self, _store: &mut C, id: usize, _value: &mut T) {
        self.seen.push(id);
    }
}

#[test]
fn each_kind_has_a_pass_and_a_way_in() {
    let mut ctx = Ast::new();
    let plus = ctx.add(Operator::Add);
    let one = ctx.add(1i64);
    let two = ctx.add(2i64);
    let sum = ctx.add(Call::new(
        plus,
        vec![("arg_0".to_string(), one), ("arg_1".to_string(), two)],
    ));
    let name = ctx.add(Symbol::new("f"));
    let minus = ctx.add(Operator::Sub);

    let mut operators = Recorder { seen: Vec::new() };
    assert!(ctx.for_each_operator(&mut operators).is_ok());
    assert_eq!(operators.seen, vec![plus, minus]);
    let mut calls = Recorder { seen: Vec::new() };
    assert!(ctx.for_each_call(&mut calls).is_ok());
    assert_eq!(calls.seen, vec![sum]);

    if let Ok(op) = ctx.get_operator_mut(plus) {
        *op = Operator::Mul;
    }
    assert_eq!(ctx.get_operator(plus).ok(), Some(&Operator::Mul));
    assert!(ctx.get_operator_mut(one).is_err());
    if let Ok(symbol) = ctx.get_symbol_mut(name) {
        symbol.name.push('g');
    }
    assert_eq!(ctx.get_symbol(name).map(|s| s.name.as_str()).ok(), Some("fg"));
    assert!(ctx.get_symbol_mut(sum).is_err());
    if let Ok(call) = ctx.get_call_mut(sum) {
        call.callee = minus;
    }
    assert_eq!(ctx.get_call(sum).map(|c| c.callee).ok(), Some(minus));
    assert!(ctx.get_call_mut(name).is_err());

    // a removal that asks for another kind leaves the node where it is
    <Ast as NodeStore<usize, Symbol, AstError>>::remove_any(&mut ctx, one);
    assert_eq!(ctx.get_i64(one).ok(), Some(&1));
    <Ast as NodeStore<usize, i64, AstError>>::remove_any(&mut ctx, one);
    assert!(ctx.get_i64(one).is_err());
    assert_eq!(ctx.ids_of(Kind::I64), vec![two]);
}

#[test]
fn a_new_entity_owns_one_component_and_nothing_else() {
    let number = <Ecs as ArenaProvider<i64>>::make_entity(TypedIndex::new(3));
    assert_eq!(number.i_64.map(|c| c.id), Some(3));
    assert!(number.operator.is_none() && number.symbol.is_none() && number.call.is_none());
    let operator = <Ecs as ArenaProvider<Operator>>::make_entity(TypedIndex::new(0));
    assert_eq!(operator.operator.map(|c| c.id), Some(0));
    assert!(operator.i_64.is_none() && operator.symbol.is_none() && operator.call.is_none());
    let symbol = <Ecs as ArenaProvider<Symbol>>::make_entity(TypedIndex::new(7));
    assert_eq!(symbol.symbol.map(|c| c.id), Some(7));
    assert!(symbol.i_64.is_none() && symbol.operator.is_none() && symbol.call.is_none());
    let call = <Ecs as ArenaProvider<Call<EntityId>>>::make_entity(TypedIndex::new(1));
    assert_eq!(call.call.map(|c| c.id), Some(1));
    assert!(call.i_64.is_none() && call.operator.is_none() && call.symbol.is_none());
}

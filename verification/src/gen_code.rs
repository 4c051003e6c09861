use crate::compiler_context::{grounded, CompilerContext, Model, NodeStore, StoreModel};
use crate::nodes::{
    lemma_call_node_refers_before, lemma_new_call_node, Call, NodeKind, NodeView, Symbol,
};
use crate::pretty_printer::positional_name;
use crate::text::{chars_of, push_natural, push_text, same_text, string_of};
use crate::typed_index::Handle;
use rand::distributions::Alphanumeric;
use rand::rngs::ThreadRng;
use rand::Rng;
use vstd::prelude::*;
use vstd::string::*;

verus! {

/// One time in a hundred a constant is drawn from all 64-bit integers.
pub const CHANCE_OF_POTENTIALLY_LARGE_CONSTANT: u32 = 1;

/// Where a symbol can stand, 99 times in a hundred one does.
pub const CHANCE_OF_SYMBOL: u32 = 99;

/// Fifteen arguments in a hundred are given by name.
pub const CHANCE_OF_NAMED_ARG: u32 = 15;

/// Where no argument was drawn, fifteen times in a hundred a call is made
/// all the same.
pub const CHANCE_OF_CALL_WITH_NO_ARGS: u32 = 15;

/// The thread-local random number generator of the `rand` crate.
#[verifier::external_type_specification]
#[verifier::external_body]
pub struct ExThreadRng(ThreadRng);

/// Calls `Rng::gen_ratio(percent, 100)`: a draw that is `true` with a
/// chance of `percent` in a hundred. Either outcome is possible. The call
/// panics on a ratio above one, which the bound on `percent` rules out.
#[verifier::external_body]
fn weighted_bool(rng: &mut ThreadRng, percent: u32) -> bool
    requires
        percent <= 100,
{
    rng.gen_ratio(percent, 100)
}

/// Calls `Rng::gen_range(low..=high)`: a number drawn from `low` to `high`,
/// both included. The call panics on an empty range, which `low <= high`
/// rules out.
#[verifier::external_body]
fn random_in(rng: &mut ThreadRng, low: usize, high: usize) -> (r: usize)
    requires
        low <= high,
    ensures
        low <= r <= high,
{
    rng.gen_range(low..=high)
}

/// Calls `Rng::gen_range(low..=high)` for 64-bit integers, as [`random_in`]
/// does for sizes.
#[verifier::external_body]
fn random_integer_in(rng: &mut ThreadRng, low: i64, high: i64) -> (r: i64)
    requires
        low <= high,
    ensures
        low <= r <= high,
{
    rng.gen_range(low..=high)
}

/// Calls `Rng::gen` for a 64-bit integer: any of them may come.
#[verifier::external_body]
fn random_integer(rng: &mut ThreadRng) -> i64 {
    rng.gen()
}

/// Calls `Rng::gen_range('a'..='z')`: a small letter.
#[verifier::external_body]
fn random_letter(rng: &mut ThreadRng) -> (c: char)
    ensures
        'a' <= c <= 'z',
{
    rng.gen_range('a'..='z')
}

/// Calls `Rng::sample(Alphanumeric)`: a letter or a digit of ASCII.
#[verifier::external_body]
fn random_alphanumeric(rng: &mut ThreadRng) -> (c: char)
    ensures
        ('a' <= c <= 'z') || ('A' <= c <= 'Z') || ('0' <= c <= '9'),
{
    char::from(rng.sample(Alphanumeric))
}

/// The largest `r` with `r * r <= n`.
pub fn integer_sqrt(n: usize) -> (r: usize)
    ensures
        r * r <= n < (r + 1) * (r + 1),
{
    let mut r: u64 = 0;
    loop
        invariant_except_break
            r * r <= n,
            r <= 0xFFFF_FFFF,
        ensures
            r * r <= n < (r + 1) * (r + 1),
            r <= 0xFFFF_FFFF,
        decreases 0x1_0000_0000 - r,
    {
        assert((r + 1) * (r + 1) <= 0x1_0000_0000 * 0x1_0000_0000) by (nonlinear_arith)
            requires
                0 <= r <= 0xFFFF_FFFF,
        ;
        let next: u128 = (r as u128 + 1) * (r as u128 + 1);
        if next > n as u128 {
            break ;
        }
        assert(r + 1 <= 0xFFFF_FFFF) by (nonlinear_arith)
            requires
                (r + 1) * (r + 1) <= n,
                n <= 0xFFFF_FFFF_FFFF_FFFF,
                r >= 0,
        ;
        r += 1;
    }
    r as usize
}

/// What a generated program may look like: how many nodes it may take, the
/// name under which it is known to its surroundings, and the names that it
/// may use, each with what it needs in scope itself.
#[derive(Debug)]
pub struct Spec {
    pub size: Option<usize>,
    name: String,
    is_operator: bool,
    in_scope: Vec<Spec>,
}

pub struct SpecView {
    pub size: Option<usize>,
    pub name: Seq<char>,
    pub is_operator: bool,
    pub in_scope: Seq<SpecView>,
}

/// A specification with its name as a character sequence.
pub closed spec fn view_of(spec: Spec) -> SpecView
    decreases spec,
{
    SpecView {
        size: spec.size,
        name: spec.name@,
        is_operator: spec.is_operator,
        in_scope: Seq::new(
            spec.in_scope@.len(),
            |i: int|
                if 0 <= i < spec.in_scope@.len() {
                    view_of(spec.in_scope@[i])
                } else {
                    arbitrary()
                },
        ),
    }
}

impl View for Spec {
    type V = SpecView;

    open spec fn view(&self) -> SpecView {
        view_of(*self)
    }
}

/// Whether a symbol of the name `name` is among `symbols`.
pub open spec fn names(symbols: Seq<SpecView>, name: Seq<char>) -> bool {
    exists|i: int| 0 <= i < symbols.len() && (#[trigger] symbols[i]).name == name
}

/// Whether `spec` can be used where `context` is in force: all that it
/// needs is in scope there, and so is its own name.
pub open spec fn usable_in(spec: SpecView, context: SpecView) -> bool
    decreases spec,
{
    &&& forall|i: int|
        0 <= i < spec.in_scope.len() ==> usable_in(#[trigger] spec.in_scope[i], context)
    &&& names(context.in_scope, spec.name)
}

impl Spec {
    pub fn new(name: &str, is_operator: bool) -> (r: Self)
        ensures
            r@ == (SpecView {
                size: None,
                name: name@,
                is_operator,
                in_scope: Seq::empty(),
            }),
    {
        let r = Self {
            name: String::from_str(name),
            size: None,
            is_operator,
            in_scope: Vec::new(),
        };
        assert(r@.in_scope =~= Seq::<SpecView>::empty());
        r
    }

    pub fn symbol(name: &str) -> (r: Self)
        ensures
            r@ == (SpecView {
                size: None,
                name: name@,
                is_operator: false,
                in_scope: Seq::empty(),
            }),
    {
        Self::new(name, false)
    }

    /// The operator `name`, which needs `n_args` positional arguments in
    /// scope.
    pub fn operator(name: &str, n_args: usize) -> (r: Self)
        ensures
            r@.size is None,
            r@.name == name@,
            r@.is_operator,
            r@.in_scope == Seq::new(
                n_args as nat,
                |i: int|
                    SpecView {
                        size: None,
                        name: crate::parser::positional_name(i as nat),
                        is_operator: false,
                        in_scope: Seq::empty(),
                    },
            ),
    {
        let mut spec = Self::new(name, true);
        let mut i: usize = 0;
        while i < n_args
            invariant
                i <= n_args,
                spec@.size is None,
                spec@.name == name@,
                spec@.is_operator,
                spec@.in_scope == Seq::new(
                    i as nat,
                    |k: int|
                        SpecView {
                            size: None,
                            name: crate::parser::positional_name(k as nat),
                            is_operator: false,
                            in_scope: Seq::empty(),
                        },
                ),
            decreases n_args - i,
        {
            let mut text: Vec<char> = Vec::new();
            push_text(&mut text, "arg_");
            push_natural(&mut text, i as u64);
            let arg = string_of(&text);
            assert(arg@ =~= crate::parser::positional_name(i as nat));
            let ghost before = spec@.in_scope;
            spec = spec.add_symbol(Spec::symbol(arg.as_str()));
            assert(spec@.in_scope =~= Seq::new(
                (i + 1) as nat,
                |k: int|
                    SpecView {
                        size: None,
                        name: crate::parser::positional_name(k as nat),
                        is_operator: false,
                        in_scope: Seq::empty(),
                    },
            ));
            i += 1;
        }
        spec
    }

    pub fn named(self, name: String) -> (r: Self)
        ensures
            r@ == (SpecView { name: name@, ..self@ }),
    {
        let mut spec = self;
        spec.name = name;
        assert(spec@.in_scope =~= self@.in_scope);
        spec
    }

    pub fn add_symbol(self, spec: Spec) -> (r: Self)
        ensures
            r@ == (SpecView { in_scope: self@.in_scope.push(spec@), ..self@ }),
    {
        let mut it = self;
        it.in_scope.push(spec);
        assert(it@.in_scope =~= self@.in_scope.push(spec@));
        it
    }

    pub fn sized(self, size: usize) -> (r: Self)
        ensures
            r@ == (SpecView { size: Some(size), ..self@ }),
    {
        let mut spec = self;
        spec.size = Some(size);
        assert(spec@.in_scope =~= self@.in_scope);
        spec
    }

    /// Whether the symbol can be used where `context` is in force; see
    /// [`usable_in`].
    pub fn is_in_scope(&self, context: &Spec) -> (r: bool)
        ensures
            r == usable_in(self@, context@),
        decreases *self,
    {
        let mut i: usize = 0;
        while i < self.in_scope.len()
            invariant
                i <= self.in_scope@.len(),
                forall|k: int| 0 <= k < i ==> usable_in(#[trigger] self@.in_scope[k], context@),
            decreases self.in_scope@.len() - i,
        {
            assert(self@.in_scope[i as int] == self.in_scope@[i as int]@);
            if !self.in_scope[i].is_in_scope(context) {
                return false;
            }
            i += 1;
        }
        let mut k: usize = 0;
        while k < context.in_scope.len()
            invariant
                k <= context.in_scope@.len(),
                forall|j: int| 0 <= j < self@.in_scope.len() ==> usable_in(#[trigger] self@.in_scope[j], context@),
                forall|j: int| 0 <= j < k ==> (#[trigger] context@.in_scope[j]).name != self@.name,
            decreases context.in_scope@.len() - k,
        {
            assert(context@.in_scope[k as int] == context.in_scope@[k as int]@);
            if same_text(context.in_scope[k].name.as_str(), self.name.as_str()) {
                return true;
            }
            k += 1;
        }
        false
    }

    /// A copy with the same size, name and scope.
    pub fn duplicate(&self) -> (r: Self)
        ensures
            r@ == self@,
        decreases *self,
    {
        let mut in_scope: Vec<Spec> = Vec::new();
        let mut i: usize = 0;
        while i < self.in_scope.len()
            invariant
                i <= self.in_scope@.len(),
                in_scope@.len() == i,
                forall|k: int| 0 <= k < i ==> (#[trigger] in_scope@[k])@ == self.in_scope@[k]@,
            decreases self.in_scope@.len() - i,
        {
            in_scope.push(self.in_scope[i].duplicate());
            i += 1;
        }
        let r = Spec {
            size: self.size,
            name: self.name.clone(),
            is_operator: self.is_operator,
            in_scope,
        };
        assert(r@.in_scope =~= self@.in_scope);
        r
    }

    /// The name under which the program is known.
    pub fn name(&self) -> (r: &str)
        ensures
            r@ == self@.name,
    {
        self.name.as_str()
    }
}

impl Clone for Spec {
    fn clone(&self) -> (r: Self)
        ensures
            r@ == self@,
    {
        self.duplicate()
    }
}

impl Default for Spec {
    /// A program of a hundred nodes that may use `putchar` and the four
    /// operators.
    fn default() -> (r: Self)
        ensures
            r@.size == Some(100usize),
            r@.name == "main"@,
            !r@.is_operator,
            r@.in_scope.len() == 5,
    {
        Spec::symbol("main").sized(100).add_symbol(
            Spec::symbol("putchar").add_symbol(Spec::symbol("arg_0")),
        ).add_symbol(Spec::operator("+", 2)).add_symbol(Spec::operator("*", 2)).add_symbol(
            Spec::operator("/", 2),
        ).add_symbol(Spec::operator("-", 2))
    }
}

/// The size up to which a program for `spec` may grow: the size that
/// `spec` names, or a thousand where it names none.
pub open spec fn size_bound(spec: SpecView) -> nat {
    match spec.size {
        Some(size) => size as nat,
        None => 1000,
    }
}

/// Adds a program drawn at random to `store` and returns its root. The
/// program is made to `spec`: of about `spec.size` nodes, of symbols that
/// are in scope, of constants, and of calls whose arguments and callees
/// are such programs again. Whatever is drawn, the store only grows, the
/// root is the last node made, and each new call refers to nodes that stood
/// in the store before it.
pub fn generate_random_program<Ctx: CompilerContext>(
    _name: &'static str,
    store: &mut Ctx,
    spec: &Spec,
    rng: &mut ThreadRng,
) -> (root: Ctx::ID)
    requires
        old(store).wf(),
    ensures
        final(store).wf(),
        final(store).model().len() > old(store).model().len(),
        final(store).model().take(old(store).model().len() as int) == old(store).model(),
        root.index() == final(store).model().len() - 1,
        grounded(final(store).model(), old(store).model().len()),
    decreases size_bound(spec@), 1int,
{
    generate_random_program_impl::<Ctx>(_name, store, spec, rng)
}

/// Whether `name` starts with `arg_`.
pub open spec fn is_argument_name(name: Seq<char>) -> bool {
    name.len() >= 4 && name[0] == 'a' && name[1] == 'r' && name[2] == 'g' && name[3] == '_'
}

/// The symbols `symbols` as they are seen in contracts.
pub open spec fn views_of(symbols: Seq<Spec>) -> Seq<SpecView> {
    Seq::new(symbols.len(), |i: int| symbols[i]@)
}

/// Those of `symbols` whose names start with `arg_`, in their order.
pub open spec fn arguments_among(symbols: Seq<SpecView>) -> Seq<SpecView> {
    symbols.filter(|s: SpecView| is_argument_name(s.name))
}

/// One symbol more is among the arguments if its name starts with `arg_`,
/// and changes nothing if not.
proof fn lemma_arguments_among_push(symbols: Seq<SpecView>, next: SpecView)
    ensures
        arguments_among(symbols.push(next)) == (if is_argument_name(next.name) {
            arguments_among(symbols).push(next)
        } else {
            arguments_among(symbols)
        }),
{
    reveal(Seq::filter);
    assert(symbols.push(next).drop_last() =~= symbols);
}

/// Copies of those of `symbols` whose names start with `arg_`, in their
/// order.
fn arguments_only(symbols: &Vec<Spec>) -> (r: Vec<Spec>)
    ensures
        views_of(r@) == arguments_among(views_of(symbols@)),
{
    let mut kept: Vec<Spec> = Vec::new();
    let mut i: usize = 0;
    proof {
        reveal(Seq::filter);
        assert(views_of(symbols@.take(0)) =~= Seq::<SpecView>::empty());
        assert(views_of(kept@) =~= Seq::<SpecView>::empty());
    }
    while i < symbols.len()
        invariant
            i <= symbols@.len(),
            views_of(kept@) == arguments_among(views_of(symbols@.take(i as int))),
        decreases symbols@.len() - i,
    {
        let name = chars_of(symbols[i].name.as_str());
        let ghost before = views_of(kept@);
        proof {
            lemma_arguments_among_push(views_of(symbols@.take(i as int)), symbols@[i as int]@);
            assert(views_of(symbols@.take(i + 1)) =~= views_of(symbols@.take(i as int)).push(
                symbols@[i as int]@,
            ));
            assert(name@ == symbols@[i as int]@.name);
        }
        if name.len() >= 4 && name[0] == 'a' && name[1] == 'r' && name[2] == 'g' && name[3]
            == '_' {
            kept.push(symbols[i].duplicate());
            assert(views_of(kept@) =~= before.push(symbols@[i as int]@));
        }
        i += 1;
    }
    assert(symbols@.take(i as int) =~= symbols@);
    kept
}

/// Whether `name` is a name as it is drawn for an argument that is given
/// by name: a small letter, then three letters or digits.
pub open spec fn is_drawn_name(name: Seq<char>) -> bool {
    &&& name.len() == 4
    &&& 'a' <= name[0] <= 'z'
    &&& forall|i: int|
        1 <= i < 4 ==> ('a' <= #[trigger] name[i] <= 'z') || ('A' <= name[i] <= 'Z') || ('0'
            <= name[i] <= '9')
}

/// A name for an argument: three letters or digits drawn at random after a
/// small letter, or the next positional name. In the first case the count
/// of positional arguments stays as it is, in the second it goes up by
/// one. Which of the two it is, is drawn too.
fn argument_name(rng: &mut ThreadRng, arg_index: &mut usize) -> (name: String)
    requires
        *old(arg_index) < usize::MAX,
    ensures
        (*final(arg_index) == *old(arg_index) && is_drawn_name(name@)) || (*final(arg_index)
            == *old(arg_index) + 1 && name@ == positional_name(*old(arg_index) as nat)),
{
    let mut tail: Vec<char> = Vec::new();
    let mut i: usize = 0;
    while i < 3
        invariant
            i <= 3,
            tail@.len() == i,
            forall|k: int|
                0 <= k < i ==> ('a' <= #[trigger] tail@[k] <= 'z') || ('A' <= tail@[k] <= 'Z')
                    || ('0' <= tail@[k] <= '9'),
        decreases 3 - i,
    {
        tail.push(random_alphanumeric(rng));
        i += 1;
    }
    let mut name: Vec<char> = Vec::new();
    if weighted_bool(rng, CHANCE_OF_NAMED_ARG) {
        name.push(random_letter(rng));
        name.push(tail[0]);
        name.push(tail[1]);
        name.push(tail[2]);
        assert forall|k: int| 1 <= k < 4 implies ('a' <= #[trigger] name@[k] <= 'z') || ('A'
            <= name@[k] <= 'Z') || ('0' <= name@[k] <= '9') by {
            assert(name@[k] == tail@[k - 1]);
        }
    } else {
        push_text(&mut name, "arg_");
        push_natural(&mut name, *arg_index as u64);
        assert(name@ =~= positional_name(*arg_index as nat));
        *arg_index += 1;
    }
    string_of(&name)
}

pub fn generate_random_program_impl<Ctx: CompilerContext>(
    _name: &'static str,
    store: &mut Ctx,
    spec: &Spec,
    rng: &mut ThreadRng,
) -> (root: Ctx::ID)
    requires
        old(store).wf(),
    ensures
        final(store).wf(),
        final(store).model().len() > old(store).model().len(),
        final(store).model().take(old(store).model().len() as int) == old(store).model(),
        root.index() == final(store).model().len() - 1,
        grounded(final(store).model(), old(store).model().len()),
    decreases size_bound(spec@), 0int,
{
    let ghost start = store.model();
    let size = match spec.size {
        Some(size) => size,
        None => random_in(rng, 1, 999),
    };
    let mut args_size: usize = random_in(rng, 0, size);
    let arg_range = integer_sqrt(args_size);
    let num_args: usize = random_in(rng, 0, arg_range);
    assert(num_args <= args_size) by (nonlinear_arith)
        requires
            num_args <= arg_range,
            arg_range * arg_range <= args_size,
            arg_range >= 0,
    ;
    if size > args_size && (num_args > 0 || weighted_bool(rng, CHANCE_OF_CALL_WITH_NO_ARGS)) {
        let mut starter = spec.duplicate();
        starter.in_scope = arguments_only(&starter.in_scope);
        args_size -= num_args;
        let mut args: Vec<(String, Ctx::ID)> = Vec::new();
        let inner_size: usize = size - args_size - 1;
        let mut inner_spec = starter.duplicate().named(String::from_str("self")).sized(
            inner_size,
        );
        let mut arg_index: usize = 0;
        let mut made: usize = 0;
        assert(store.model().take(start.len() as int) =~= start);
        while made < num_args
            invariant
                store.wf(),
                made <= num_args,
                arg_index <= made,
                args@.len() == made,
                args_size + (num_args - made) < size,
                inner_spec@.size == Some(inner_size),
                inner_size < size,
                size <= size_bound(spec@),
                store.model().len() >= start.len(),
                store.model().take(start.len() as int) == start,
                grounded(store.model(), start.len()),
                forall|k: int| 0 <= k < args@.len() ==> (#[trigger] args@[k]).1.index()
                    < store.model().len(),
            decreases num_args - made,
        {
            let arg_name = argument_name(rng, &mut arg_index);
            let arg_size: usize = random_in(rng, 1, 1 + args_size);
            let arg_spec = starter.duplicate().named(arg_name.clone()).sized(arg_size);
            args_size -= arg_size - 1;
            let ghost before = store.model();
            let arg_id = generate_random_program(_name, store, &arg_spec, rng);
            proof {
                assert(store.model().take(start.len() as int) =~= before.take(
                    start.len() as int,
                ));
                assert forall|i: int| start.len() <= i < store.model().len() implies (
                #[trigger] store.model()[i]) is Some && store.model()[i]->Some_0.refers_before(
                    i as nat,
                ) by {
                    if i < before.len() {
                        assert(store.model()[i] == store.model().take(before.len() as int)[i]);
                        assert(before[i] is Some);
                    }
                }
            }
            inner_spec = inner_spec.add_symbol(arg_spec);
            args.push((arg_name, arg_id));
            made += 1;
        }
        let ghost before = store.model();
        let callee = generate_random_program(_name, store, &inner_spec, rng);
        let ghost middle = store.model();
        let call = Call::new(callee, args);
        proof {
            lemma_new_call_node(call);
        }
        let id = store.add(call);
        proof {
            let after = store.model();
            assert(after.take(start.len() as int) =~= before.take(start.len() as int)) by {
                assert(middle.take(before.len() as int) == before);
                assert forall|i: int| 0 <= i < start.len() implies after[i] == before[i] by {
                    assert(after[i] == middle[i]);
                    assert(middle[i] == middle.take(before.len() as int)[i]);
                }
            }
            assert forall|i: int| start.len() <= i < after.len() implies (#[trigger] after[i]) is Some
                && after[i]->Some_0.refers_before(i as nat) by {
                if i < middle.len() {
                    assert(after[i] == middle[i]);
                    if i < before.len() {
                        assert(middle[i] == middle.take(before.len() as int)[i]);
                        assert(before[i] is Some);
                    }
                } else {
                    assert(after[i] == Some(call.node()));
                    assert forall|k: int| 0 <= k < call@.args.len() implies (
                    #[trigger] call@.args[k]).1 < i by {
                        assert(call@.args[k].1 == call.args@[k].1.index());
                    }
                    lemma_call_node_refers_before(call@.callee, call@.args, i as nat);
                }
            }
        }
        return id;
    }
    let mut symbols: Vec<Spec> = Vec::new();
    let mut i: usize = 0;
    while i < spec.in_scope.len()
        invariant
            i <= spec.in_scope@.len(),
        decreases spec.in_scope@.len() - i,
    {
        if spec.in_scope[i].is_in_scope(spec) {
            symbols.push(spec.in_scope[i].duplicate());
        }
        i += 1;
    }
    if symbols.len() > 0 && weighted_bool(rng, CHANCE_OF_SYMBOL) {
        let symbol_index: usize = random_in(rng, 0, symbols.len() - 1);
        let chosen = &symbols[symbol_index];
        let id = store.add(Symbol { name: chosen.name.clone() });
        assert(store.model().take(start.len() as int) =~= start);
        return id;
    }
    let value: i64 = if weighted_bool(rng, CHANCE_OF_POTENTIALLY_LARGE_CONSTANT) {
        random_integer(rng)
    } else {
        random_integer_in(rng, -5i64, 5i64)
    };
    let id = store.add(value);
    assert(store.model().take(start.len() as int) =~= start);
    id
}

} // verus!

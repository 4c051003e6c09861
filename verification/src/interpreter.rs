use crate::compiler_context::{CompilerContext, Model, Store, StoreModel};
use crate::error::{ErrView, SteelErr};
use crate::nodes::{Call, NodeKind, NodeView, Operator};
use crate::optimizer::{applied, apply};
use crate::pretty_printer::{pretty, pretty_text};
use crate::typed_index::{Handle, TypedIndex};
use std::marker::PhantomData;
use vstd::hash_map::StringHashMap;
use vstd::prelude::*;
use vstd::string::*;

verus! {

/// The functions that the machine brings along.
#[derive(Copy, Clone, Debug, PartialEq, Eq, Structural)]
pub enum Builtin {
    Add,
    Sub,
    Mul,
    Div,
    Putchar,
}

impl Builtin {
    /// The name under which the function is bound.
    pub open spec fn name(self) -> Seq<char> {
        match self {
            Builtin::Add => "+"@,
            Builtin::Sub => "-"@,
            Builtin::Mul => "*"@,
            Builtin::Div => "/"@,
            Builtin::Putchar => "putchar"@,
        }
    }

    pub fn name_str(&self) -> (r: &'static str)
        ensures
            r@ == self.name(),
    {
        match self {
            Builtin::Add => "+",
            Builtin::Sub => "-",
            Builtin::Mul => "*",
            Builtin::Div => "/",
            Builtin::Putchar => "putchar",
        }
    }
}

/// A function of the host under its name: a value like any other, that a
/// memory slot can hold and a name can be bound to.
#[derive(Debug)]
pub struct Impl<ID> {
    name: &'static str,
    imp: Builtin,
    marker: PhantomData<ID>,
}

impl<ID> Impl<ID> {
    fn new(imp: Builtin) -> (r: Self)
        ensures
            r.builtin() == imp,
    {
        Self { name: imp.name_str(), imp, marker: PhantomData }
    }

    /// Which function it is.
    pub closed spec fn builtin(&self) -> Builtin {
        self.imp
    }
}

#[derive(Debug)]
pub enum Value<ID> {
    Uninit,
    I64(i64),
    Extern(Impl<ID>),
}

/// A value, whatever the type of the store's identifiers.
pub enum ValueView {
    Uninit,
    I64(i64),
    Extern(Builtin),
}

impl<ID> View for Value<ID> {
    type V = ValueView;

    open spec fn view(&self) -> ValueView {
        match self {
            Value::Uninit => ValueView::Uninit,
            Value::I64(v) => ValueView::I64(*v),
            Value::Extern(imp) => ValueView::Extern(imp.builtin()),
        }
    }
}

impl<ID> Clone for Impl<ID> {
    fn clone(&self) -> (r: Self)
        ensures
            r.builtin() == self.builtin(),
    {
        Impl::new(self.imp)
    }
}

impl<ID> Clone for Value<ID> {
    /// A copy of the value. A copy of an extern is the same function.
    fn clone(&self) -> (r: Self)
        ensures
            r@ == self@,
    {
        match self {
            Value::Uninit => Value::Uninit,
            Value::I64(v) => Value::I64(*v),
            Value::Extern(imp) => Value::Extern(imp.clone()),
        }
    }
}

pub type MemIndex<ID> = TypedIndex<Value<ID>>;

/// What a frame evaluates: a node of the program, or the value in a memory
/// slot.
#[derive(Debug)]
pub enum FnPtr<ID> {
    StaticPtr(ID),
    MemPtr(MemIndex<ID>),
}

pub use FnPtr::{MemPtr, StaticPtr};

pub enum TargetView {
    Code(nat),
    Memory(nat),
}

/// One entry of the machine's stack: what to evaluate, where the result
/// goes, and the names to bind when its turn comes.
pub struct StackFrame<ID> {
    fn_ptr: FnPtr<ID>,
    return_address: MemIndex<ID>,
    bindings: Vec<(String, MemIndex<ID>)>,
}

pub struct FrameView {
    pub target: TargetView,
    pub return_slot: nat,
    pub bindings: Seq<(Seq<char>, nat)>,
}

impl<ID: Handle> View for StackFrame<ID> {
    type V = FrameView;

    closed spec fn view(&self) -> FrameView {
        frame_view(self.fn_ptr, self.return_address.id as nat, self.bindings@)
    }
}

/// The slots of a stack of bindings, the latest last.
pub open spec fn slots_view<ID>(stack: Seq<MemIndex<ID>>) -> Seq<nat> {
    Seq::new(stack.len(), |i: int| stack[i].id as nat)
}

/// The names in scope. Each name has a stack of memory slots; a new binding
/// of a name shadows the older ones.
pub struct Scope<ID> {
    names: StringHashMap<usize>,
    stacks: Vec<Vec<MemIndex<ID>>>,
}

/// The slots that `name` is bound to in `scope`, the latest last.
pub open spec fn stack_of(scope: Map<Seq<char>, Seq<nat>>, name: Seq<char>) -> Seq<nat> {
    if scope.contains_key(name) {
        scope[name]
    } else {
        Seq::empty()
    }
}

/// `scope` with one more binding of `name`.
pub open spec fn bound(scope: Map<Seq<char>, Seq<nat>>, name: Seq<char>, slot: nat) -> Map<
    Seq<char>,
    Seq<nat>,
> {
    scope.insert(name, stack_of(scope, name).push(slot))
}

/// `scope` with the bindings `bindings` made one after the other.
pub open spec fn bound_all(scope: Map<Seq<char>, Seq<nat>>, bindings: Seq<(Seq<char>, nat)>)
    -> Map<Seq<char>, Seq<nat>>
    decreases bindings.len(),
{
    if bindings.len() == 0 {
        scope
    } else {
        bound(bound_all(scope, bindings.drop_last()), bindings.last().0, bindings.last().1)
    }
}

/// The latest slot of `stack` that lies within a memory of `size` slots.
pub open spec fn live_slot(stack: Seq<nat>, size: nat) -> Option<nat>
    decreases stack.len(),
{
    if stack.len() == 0 {
        None
    } else if stack.last() < size {
        Some(stack.last())
    } else {
        live_slot(stack.drop_last(), size)
    }
}

impl<ID> Scope<ID> {
    pub closed spec fn wf(&self) -> bool {
        &&& forall|name: Seq<char>| #[trigger]
            self.names@.contains_key(name) ==> self.names@[name] < self.stacks@.len()
        &&& forall|a: Seq<char>, b: Seq<char>|
            #![trigger self.names@[a], self.names@[b]]
            self.names@.contains_key(a) && self.names@.contains_key(b) && a != b
                ==> self.names@[a] != self.names@[b]
    }

    pub fn new() -> (r: Self)
        ensures
            r.wf(),
            r@ == Map::<Seq<char>, Seq<nat>>::empty(),
    {
        let r = Scope { names: StringHashMap::new(), stacks: Vec::new() };
        assert(r@ =~= Map::<Seq<char>, Seq<nat>>::empty());
        r
    }

    /// Binds `name` to `index`, over whatever it was bound to.
    pub fn bind(&mut self, name: &str, index: MemIndex<ID>)
        requires
            old(self).wf(),
        ensures
            final(self).wf(),
            final(self)@ == bound(old(self)@, name@, index.id as nat),
    {
        let known = match self.names.get(name) {
            Some(at) => Some(*at),
            None => None,
        };
        match known {
            Some(at) => {
                let ghost before = self.stacks@[at as int]@;
                self.stacks[at].push(index);
                assert(slots_view(self.stacks@[at as int]@) =~= slots_view(before).push(
                    index.id as nat,
                ));
                assert(self@ =~= bound(old(self)@, name@, index.id as nat));
            },
            None => {
                let at = self.stacks.len();
                let mut stack: Vec<MemIndex<ID>> = Vec::new();
                stack.push(index);
                self.stacks.push(stack);
                self.names.insert(String::from_str(name), at);
                assert(slots_view(stack@) =~= Seq::<nat>::empty().push(index.id as nat));
                assert(self@ =~= bound(old(self)@, name@, index.id as nat));
            },
        }
    }

    /// The latest slot bound to `name` that lies within a memory of `size`
    /// slots.
    pub fn live(&self, name: &str, size: usize) -> (r: Option<MemIndex<ID>>)
        requires
            self.wf(),
        ensures
            match r {
                Some(slot) => live_slot(stack_of(self@, name@), size as nat) == Some(
                    slot.id as nat,
                ),
                None => live_slot(stack_of(self@, name@), size as nat) is None,
            },
    {
        let stack = match self.names.get(name) {
            Some(at) => &self.stacks[*at],
            None => {
                return None;
            },
        };
        let ghost slots = slots_view(stack@);
        assert(stack_of(self@, name@) == slots);
        assert(slots.take(stack@.len() as int) =~= slots);
        let mut i: usize = stack.len();
        while i > 0
            invariant
                i <= stack@.len(),
                slots == slots_view(stack@),
                stack_of(self@, name@) == slots,
                live_slot(slots.take(i as int), size as nat) == live_slot(slots, size as nat),
            decreases i,
        {
            assert(slots.take(i as int).drop_last() =~= slots.take(i - 1));
            assert(slots.take(i as int).last() == stack@[i - 1].id as nat);
            if stack[i - 1].id < size {
                return Some(stack[i - 1]);
            }
            i -= 1;
        }
        None
    }
}

impl<ID> View for Scope<ID> {
    type V = Map<Seq<char>, Seq<nat>>;

    closed spec fn view(&self) -> Map<Seq<char>, Seq<nat>> {
        Map::new(
            |name: Seq<char>| self.names@.contains_key(name),
            |name: Seq<char>| slots_view(self.stacks@[self.names@[name] as int]@),
        )
    }
}

/// The machine: the frames that are still to be run, the latest last; the
/// names in scope; the memory, which only grows; and what the program has
/// written so far.
pub struct EvalState<ID> {
    pub function_stack: Vec<StackFrame<ID>>,
    pub bindings: Scope<ID>,
    pub mem_stack: Vec<Value<ID>>,
    pub output: String,
}

pub struct MachineView {
    pub frames: Seq<FrameView>,
    pub scope: Map<Seq<char>, Seq<nat>>,
    pub memory: Seq<ValueView>,
    pub output: Seq<char>,
}

impl<ID: Handle> View for EvalState<ID> {
    type V = MachineView;

    open spec fn view(&self) -> MachineView {
        MachineView {
            frames: Seq::new(self.function_stack@.len(), |i: int| self.function_stack@[i]@),
            scope: self.bindings@,
            memory: Seq::new(self.mem_stack@.len(), |i: int| self.mem_stack@[i]@),
            output: self.output@,
        }
    }
}

/// A machine after a step, and the error that the step ended in, if it did.
pub struct Outcome {
    pub state: MachineView,
    pub error: Option<ErrView>,
}

/// The machine goes on from `state`.
pub open spec fn fine(state: MachineView) -> Outcome {
    Outcome { state, error: None }
}

/// The machine stops in `state` with the error `e`.
pub open spec fn stopped(state: MachineView, e: ErrView) -> Outcome {
    Outcome { state, error: Some(e) }
}

/// The machine `s` with one more memory slot, which holds `value`.
pub open spec fn allocated(s: MachineView, value: ValueView) -> MachineView {
    MachineView { memory: s.memory.push(value), ..s }
}

/// The machine `s` with one more frame on its stack.
pub open spec fn pushed(s: MachineView, frame: FrameView) -> MachineView {
    MachineView { frames: s.frames.push(frame), ..s }
}

/// The machine `s` after `value` was written to `slot`: an error where the
/// memory has no such slot.
pub open spec fn written(s: MachineView, slot: nat, value: ValueView) -> Outcome {
    if slot < s.memory.len() {
        fine(MachineView { memory: s.memory.update(slot as int, value), ..s })
    } else {
        stopped(s, ErrView::ReliedOnOutOfBoundsMemory(slot as usize))
    }
}

/// The value in `slot`, which has to be there and to be initialized.
pub open spec fn loaded(s: MachineView, slot: nat) -> Result<ValueView, ErrView> {
    if slot >= s.memory.len() {
        Err(ErrView::ReliedOnOutOfBoundsMemory(slot as usize))
    } else if s.memory[slot as int] is Uninit {
        Err(ErrView::ReliedOnUninitializedMemory(slot as usize))
    } else {
        Ok(s.memory[slot as int])
    }
}

/// The value that `name` stands for: that of the latest slot bound to it
/// that the memory holds. No value where there is no such slot; an error
/// where the slot is not initialized.
pub open spec fn value_for(s: MachineView, name: Seq<char>) -> Result<Option<ValueView>, ErrView> {
    match live_slot(stack_of(s.scope, name), s.memory.len()) {
        None => Ok(None),
        Some(slot) => if s.memory[slot as int] is Uninit {
            Err(ErrView::ReliedOnUninitializedMemory(slot as usize))
        } else {
            Ok(Some(s.memory[slot as int]))
        },
    }
}

/// Whether `i` is a Unicode scalar value.
pub open spec fn is_scalar(i: i64) -> bool {
    (0 <= i <= 0xD7FF) || (0xE000 <= i <= 0x10FFFF)
}

/// The integer that `name` stands for, as an argument of the extern `func`.
pub open spec fn argument(s: MachineView, func: Seq<char>, name: Seq<char>) -> Result<
    i64,
    ErrView,
> {
    match value_for(s, name) {
        Err(e) => Err(e),
        Ok(Some(ValueView::I64(v))) => Ok(v),
        Ok(_) => Err(ErrView::MissingArgumentExpectedByExtern(func, name)),
    }
}

/// What the extern `b` makes of the machine `s`, and the value that it
/// returns. The arithmetic externs take `arg_0` and `arg_1`. `putchar`
/// writes the character whose code `arg_0` is and returns one; where
/// `arg_0` is no integer or no character's code, it writes nothing and
/// returns zero.
pub open spec fn called(b: Builtin, s: MachineView) -> (MachineView, Result<ValueView, ErrView>) {
    match b {
        Builtin::Putchar => match value_for(s, "arg_0"@) {
            Err(e) => (s, Err(e)),
            Ok(Some(ValueView::I64(i))) => if is_scalar(i) {
                (
                    MachineView { output: s.output.push(i as char), ..s },
                    Ok(ValueView::I64(1)),
                )
            } else {
                (s, Ok(ValueView::I64(0)))
            },
            Ok(_) => (s, Ok(ValueView::I64(0))),
        },
        _ => {
            let op = match b {
                Builtin::Add => Operator::Add,
                Builtin::Sub => Operator::Sub,
                Builtin::Mul => Operator::Mul,
                _ => Operator::Div,
            };
            match argument(s, b.name(), "arg_0"@) {
                Err(e) => (s, Err(e)),
                Ok(l) => match argument(s, b.name(), "arg_1"@) {
                    Err(e) => (s, Err(e)),
                    Ok(r) => (s, Ok(ValueView::I64(applied(op, l, r)))),
                },
            }
        },
    }
}

/// The bindings of the arguments `args` to the slots from `first` on, in
/// order.
pub open spec fn argument_bindings(args: Seq<(Seq<char>, nat)>, first: nat) -> Seq<
    (Seq<char>, nat),
> {
    Seq::new(args.len(), |i: int| (args[i].0, first + i as nat))
}

/// The frame that evaluates argument number `i` of `args` into its slot.
pub open spec fn argument_frame(args: Seq<(Seq<char>, nat)>, first: nat, i: int) -> FrameView {
    FrameView {
        target: TargetView::Code(args[i].1),
        return_slot: (first + i) as nat,
        bindings: Seq::empty(),
    }
}

/// The frames that evaluate the arguments `args`, the last argument first,
/// so that the first argument is the latest frame.
pub open spec fn argument_frames(args: Seq<(Seq<char>, nat)>, first: nat) -> Seq<FrameView> {
    Seq::new(args.len(), |k: int| argument_frame(args, first, args.len() - 1 - k))
}

/// The machine `s` set up to run a call of `callee` on `args` whose result
/// goes to `return_slot`: one slot for each argument and one for the
/// callee, none of them initialized; a frame that calls what the callee's
/// slot will hold, with the arguments and `self` bound; over it a frame
/// that evaluates the callee; and over that one frame for each argument,
/// the first argument on top.
pub open spec fn call_set_up(
    s: MachineView,
    callee: nat,
    args: Seq<(Seq<char>, nat)>,
    return_slot: nat,
) -> MachineView {
    let first = s.memory.len();
    let callee_slot = first + args.len();
    let closure = FrameView {
        target: TargetView::Memory(callee_slot),
        return_slot,
        bindings: argument_bindings(args, first).push(("self"@, callee_slot)),
    };
    let fetch = FrameView {
        target: TargetView::Code(callee),
        return_slot: callee_slot,
        bindings: Seq::empty(),
    };
    MachineView {
        frames: s.frames.push(closure).push(fetch) + argument_frames(args, first),
        memory: s.memory + Seq::new(args.len() + 1, |i: int| ValueView::Uninit),
        ..s
    }
}

/// What running the frame `frame` makes of the machine `s` over the program
/// `m`. The frame's bindings are made first.
pub open spec fn performed(m: Model, s: MachineView, frame: FrameView) -> Outcome {
    let s = MachineView { scope: bound_all(s.scope, frame.bindings), ..s };
    match frame.target {
        TargetView::Memory(slot) => match loaded(s, slot) {
            Err(e) => stopped(s, e),
            Ok(ValueView::Extern(b)) => {
                let (after, result) = called(b, s);
                match result {
                    Err(e) => stopped(after, e),
                    Ok(value) => written(after, frame.return_slot, value),
                }
            },
            Ok(value) => written(s, frame.return_slot, value),
        },
        TargetView::Code(id) => if id >= m.len() || m[id as int] is None {
            stopped(s, ErrView::MalformedExpression(pretty_text(m, id), "a node"@))
        } else {
            match m[id as int]->Some_0 {
                NodeView::Call(call) => fine(
                    call_set_up(s, call.callee, call.args, frame.return_slot),
                ),
                NodeView::I64(v) => written(s, frame.return_slot, ValueView::I64(v)),
                NodeView::Operator(op) => named_value(s, op.token_text(), frame.return_slot),
                NodeView::Symbol(name) => named_value(s, name, frame.return_slot),
            }
        },
    }
}

/// The machine after a copy of the value that `name` stands for was written
/// to `return_slot`.
pub open spec fn named_value(s: MachineView, name: Seq<char>, return_slot: nat) -> Outcome {
    match value_for(s, name) {
        Err(e) => stopped(s, e),
        Ok(None) => stopped(s, ErrView::MissingValueForBinding(name)),
        Ok(Some(value)) => written(s, return_slot, value),
    }
}

/// One step of the machine: the latest frame is taken off the stack and
/// run.
pub open spec fn stepped(m: Model, s: MachineView) -> Outcome
    recommends
        s.frames.len() > 0,
{
    performed(m, MachineView { frames: s.frames.drop_last(), ..s }, s.frames.last())
}

/// How far the machine is from a memory that the host cannot address: the
/// measure by which it is seen to stop.
pub open spec fn room(s: MachineView) -> int {
    usize::MAX - s.memory.len()
}

/// The machine run until no frame is left or a step ends in an error.
pub open spec fn ran(m: Model, s: MachineView) -> Outcome
    decreases room(s), s.frames.len(),
{
    if s.frames.len() == 0 {
        fine(s)
    } else {
        let next = stepped(m, s);
        if next.error is Some {
            next
        } else if room(next.state) >= 0 && (room(next.state) < room(s) || (room(next.state)
            == room(s) && next.state.frames.len() < s.frames.len())) {
            ran(m, next.state)
        } else {
            next
        }
    }
}

/// The machine with the extern `b` in a new slot and bound to its name.
pub open spec fn with_extern(s: MachineView, b: Builtin) -> MachineView {
    MachineView {
        scope: bound(s.scope, b.name(), s.memory.len()),
        memory: s.memory.push(ValueView::Extern(b)),
        ..s
    }
}

/// The machine as it starts out: no frame, nothing written, and a memory
/// that holds the externs, each bound to its name.
pub open spec fn fresh_machine() -> MachineView {
    with_extern(
        with_extern(
            with_extern(
                with_extern(
                    with_extern(
                        MachineView {
                            frames: Seq::empty(),
                            scope: Map::empty(),
                            memory: Seq::empty(),
                            output: Seq::empty(),
                        },
                        Builtin::Add,
                    ),
                    Builtin::Sub,
                ),
                Builtin::Mul,
            ),
            Builtin::Div,
        ),
        Builtin::Putchar,
    )
}

/// A step that does not end in an error makes the memory larger, or leaves
/// it as large and takes a frame off the stack.
pub proof fn lemma_step_progress(m: Model, s: MachineView)
    requires
        s.frames.len() > 0,
        stepped(m, s).error is None,
    ensures
        stepped(m, s).state.memory.len() > s.memory.len() || (stepped(m, s).state.memory.len()
            == s.memory.len() && stepped(m, s).state.frames.len() < s.frames.len()),
{
}

impl<ID: Handle> EvalState<ID> {
    /// The machine's own invariant.
    pub open spec fn wf(&self) -> bool {
        self.bindings.wf()
    }

    fn register_extern(self, imp: Impl<ID>) -> (r: Self)
        requires
            self.wf(),
        ensures
            r.wf(),
            r@ == with_extern(self@, imp.builtin()),
    {
        let mut state = self;
        let name = imp.imp.name_str();
        let index = state.allocate(Value::Extern(imp));
        state.bind_name(name, index);
        state
    }

    fn run_extern(&mut self, imp: Impl<ID>) -> (r: Result<Value<ID>, SteelErr>)
        requires
            old(self).wf(),
        ensures
            final(self).wf(),
            final(self)@ == called(imp.builtin(), old(self)@).0,
            match r {
                Ok(value) => called(imp.builtin(), old(self)@).1 == Ok::<ValueView, ErrView>(
                    value@,
                ),
                Err(e) => called(imp.builtin(), old(self)@).1 == Err::<ValueView, ErrView>(e@),
            },
    {
        match imp.imp {
            Builtin::Add => bin_op(self, Builtin::Add),
            Builtin::Sub => bin_op(self, Builtin::Sub),
            Builtin::Mul => bin_op(self, Builtin::Mul),
            Builtin::Div => bin_op(self, Builtin::Div),
            Builtin::Putchar => {
                let code = match self.get_value_for("arg_0") {
                    Err(e) => {
                        return Err(e);
                    },
                    Ok(Some(Value::I64(i))) => Some(*i),
                    Ok(_) => None,
                };
                if let Some(i) = code {
                    if (0 <= i && i <= 0xD7FF) || (0xE000 <= i && i <= 0x10FFFF) {
                        let c = scalar(i as u32);
                        self.output.push(c);
                        return Ok(Value::I64(1));
                    }
                }
                Ok(Value::I64(0))
            },
        }
    }

    /// Writes `value` to the slot `index`, which the memory must hold.
    fn set_mem(&mut self, index: MemIndex<ID>, value: Value<ID>) -> (r: Result<(), SteelErr>)
        requires
            old(self).wf(),
        ensures
            final(self).wf(),
            final(self)@ == written(old(self)@, index.id as nat, value@).state,
            match r {
                Ok(()) => written(old(self)@, index.id as nat, value@).error is None,
                Err(e) => written(old(self)@, index.id as nat, value@).error == Some(e@),
            },
    {
        if index.id < self.mem_stack.len() {
            self.mem_stack[index.id] = value;
            assert(self@.memory =~= old(self)@.memory.update(index.id as int, value@));
            assert(self@.frames =~= old(self)@.frames);
            Ok(())
        } else {
            Err(SteelErr::ReliedOnOutOfBoundsMemory(index.id))
        }
    }

    /// The value in the slot `index`, if the memory holds that slot. A slot
    /// that was never written is an error.
    fn try_get_mem(&self, index: MemIndex<ID>) -> (r: Result<Option<&Value<ID>>, SteelErr>)
        ensures
            match r {
                Ok(Some(value)) => index.id < self@.memory.len() && value@
                    == self@.memory[index.id as int] && !(value@ is Uninit),
                Ok(None) => index.id >= self@.memory.len(),
                Err(e) => index.id < self@.memory.len() && self@.memory[index.id as int] is Uninit
                    && e@ == ErrView::ReliedOnUninitializedMemory(index.id),
            },
    {
        if index.id >= self.mem_stack.len() {
            return Ok(None);
        }
        let value = &self.mem_stack[index.id];
        if let Value::Uninit = value {
            return Err(SteelErr::ReliedOnUninitializedMemory(index.id));
        }
        Ok(Some(value))
    }

    fn get_mem(&self, index: MemIndex<ID>) -> (r: Result<&Value<ID>, SteelErr>)
        ensures
            match r {
                Ok(value) => loaded(self@, index.id as nat) == Ok::<ValueView, ErrView>(value@),
                Err(e) => loaded(self@, index.id as nat) == Err::<ValueView, ErrView>(e@),
            },
    {
        match self.try_get_mem(index) {
            Ok(Some(value)) => Ok(value),
            Ok(None) => Err(SteelErr::ReliedOnOutOfBoundsMemory(index.id)),
            Err(e) => Err(e),
        }
    }

    /// Forgets the latest `mem.id` slots of the memory.
    #[allow(unused)]
    fn drop_mem(&mut self, mem: MemIndex<ID>)
        ensures
            final(self).function_stack == old(self).function_stack,
            final(self).bindings == old(self).bindings,
            final(self).output == old(self).output,
            final(self).mem_stack@ == old(self).mem_stack@.take(
                if mem.id <= old(self).mem_stack@.len() {
                    old(self).mem_stack@.len() - mem.id
                } else {
                    0
                },
            ),
    {
        let len = self.mem_stack.len();
        let final_length = if mem.id <= len {
            len - mem.id
        } else {
            0
        };
        self.mem_stack.truncate(final_length);
    }

    /// A new slot at the end of the memory, which holds `value`.
    fn allocate(&mut self, value: Value<ID>) -> (r: MemIndex<ID>)
        requires
            old(self).wf(),
        ensures
            final(self).wf(),
            final(self)@ == allocated(old(self)@, value@),
            r.id == old(self)@.memory.len(),
    {
        let index = self.mem_stack.len();
        self.mem_stack.push(value);
        assert(self@.memory =~= old(self)@.memory.push(value@));
        assert(self@.frames =~= old(self)@.frames);
        TypedIndex::new(index)
    }

    /// Binds `name` to the slot `index`, over whatever it was bound to.
    pub fn bind_name(&mut self, name: &str, index: MemIndex<ID>)
        requires
            old(self).wf(),
        ensures
            final(self).wf(),
            final(self)@ == (MachineView {
                scope: bound(old(self)@.scope, name@, index.id as nat),
                ..old(self)@
            }),
    {
        self.bindings.bind(name, index);
        assert(self@.frames =~= old(self)@.frames);
        assert(self@.memory =~= old(self)@.memory);
    }

    /// Puts a frame on the stack that evaluates `fn_ptr` into the slot
    /// `return_address`, with `bindings` bound when its turn comes.
    pub fn setup_eval_to(
        &mut self,
        fn_ptr: FnPtr<ID>,
        return_address: MemIndex<ID>,
        bindings: Vec<(String, MemIndex<ID>)>,
    )
        requires
            old(self).wf(),
        ensures
            final(self).wf(),
            final(self)@ == pushed(
                old(self)@,
                frame_view(fn_ptr, return_address.id as nat, bindings@),
            ),
    {
        self.function_stack.push(StackFrame { fn_ptr, return_address, bindings });
        assert(self@.frames =~= old(self)@.frames.push(
            frame_view(fn_ptr, return_address.id as nat, bindings@),
        ));
        assert(self@.memory =~= old(self)@.memory);
    }

    /// Sets the machine up to call what `code` evaluates to: a new slot for
    /// the callee; a frame that calls what that slot will hold, with
    /// `bindings` and `self` bound, and whose result goes to
    /// `return_address`; and over it a frame that evaluates `code` into the
    /// new slot.
    pub fn setup_closure(
        &mut self,
        code: ID,
        return_address: MemIndex<ID>,
        bindings: Vec<(String, MemIndex<ID>)>,
    ) -> (r: MemIndex<ID>)
        requires
            old(self).wf(),
        ensures
            final(self).wf(),
            r == return_address,
            final(self)@ == closure_set_up(
                old(self)@,
                code.index(),
                return_address.id as nat,
                bindings_slots(bindings@),
            ),
    {
        let mut bindings = bindings;
        let ghost given = bindings_slots(bindings@);
        let callee_index = self.allocate(Value::Uninit);
        let own_name = String::from_str("self");
        assert(own_name@ == "self"@);
        bindings.push((own_name, callee_index));
        assert(bindings_slots(bindings@) =~= given.push(("self"@, callee_index.id as nat)));
        self.setup_eval_to(FnPtr::MemPtr(callee_index), return_address, bindings);
        self.setup_eval_to(FnPtr::StaticPtr(code), callee_index, Vec::new());
        assert(bindings_slots(Seq::<(String, MemIndex<ID>)>::empty()) =~= Seq::<
            (Seq<char>, nat),
        >::empty());
        return_address
    }

    /// Puts a frame on the stack that evaluates `target` into a new slot,
    /// and returns that slot.
    pub fn setup_eval(&mut self, target: FnPtr<ID>, bindings: Vec<(String, MemIndex<ID>)>) -> (r:
        MemIndex<ID>)
        requires
            old(self).wf(),
        ensures
            final(self).wf(),
            r.id == old(self)@.memory.len(),
            final(self)@ == pushed(
                allocated(old(self)@, ValueView::Uninit),
                frame_view(target, r.id as nat, bindings@),
            ),
    {
        let return_address = self.allocate(Value::Uninit);
        self.setup_eval_to(target, return_address, bindings);
        return_address
    }

    /// The value that `name` stands for; see [`value_for`].
    pub fn get_value_for(&self, name: &str) -> (r: Result<Option<&Value<ID>>, SteelErr>)
        requires
            self.wf(),
        ensures
            match r {
                Ok(Some(value)) => value_for(self@, name@) == Ok::<Option<ValueView>, ErrView>(
                    Some(value@),
                ),
                Ok(None) => value_for(self@, name@) == Ok::<Option<ValueView>, ErrView>(None),
                Err(e) => value_for(self@, name@) == Err::<Option<ValueView>, ErrView>(e@),
            },
    {
        match self.bindings.live(name, self.mem_stack.len()) {
            None => Ok(None),
            Some(slot) => {
                proof {
                    lemma_live_slot_in_bounds(
                        stack_of(self@.scope, name@),
                        self@.memory.len(),
                    );
                }
                match self.try_get_mem(slot) {
                    Ok(found) => Ok(found),
                    Err(e) => Err(e),
                }
            },
        }
    }
}

/// The latest live slot of a stack, where there is one, lies within the
/// memory.
pub proof fn lemma_live_slot_in_bounds(stack: Seq<nat>, size: nat)
    ensures
        live_slot(stack, size) matches Some(slot) ==> slot < size,
    decreases stack.len(),
{
    if stack.len() > 0 && stack.last() >= size {
        lemma_live_slot_in_bounds(stack.drop_last(), size);
    }
}

/// The bindings of a frame, with names as character sequences and slots as
/// positions.
pub open spec fn bindings_slots<ID>(bindings: Seq<(String, MemIndex<ID>)>) -> Seq<
    (Seq<char>, nat),
> {
    Seq::new(bindings.len(), |i: int| (bindings[i].0@, bindings[i].1.id as nat))
}

/// The frame that evaluates `fn_ptr` into `return_slot` with `bindings`.
pub open spec fn frame_view<ID: Handle>(
    fn_ptr: FnPtr<ID>,
    return_slot: nat,
    bindings: Seq<(String, MemIndex<ID>)>,
) -> FrameView {
    FrameView {
        target: match fn_ptr {
            FnPtr::StaticPtr(id) => TargetView::Code(id.index()),
            FnPtr::MemPtr(slot) => TargetView::Memory(slot.id as nat),
        },
        return_slot,
        bindings: bindings_slots(bindings),
    }
}

/// The machine `s` set up to call what the node `code` evaluates to.
pub open spec fn closure_set_up(
    s: MachineView,
    code: nat,
    return_slot: nat,
    bindings: Seq<(Seq<char>, nat)>,
) -> MachineView {
    let callee_slot = s.memory.len();
    MachineView {
        frames: s.frames.push(
            FrameView {
                target: TargetView::Memory(callee_slot),
                return_slot,
                bindings: bindings.push(("self"@, callee_slot)),
            },
        ).push(
            FrameView {
                target: TargetView::Code(code),
                return_slot: callee_slot,
                bindings: Seq::empty(),
            },
        ),
        memory: s.memory.push(ValueView::Uninit),
        ..s
    }
}

/// The character whose code is `code`.
fn scalar(code: u32) -> (c: char)
    requires
        code <= 0xD7FF || (0xE000 <= code <= 0x10FFFF),
    ensures
        c == code as char,
{
    match char::from_u32(code) {
        Some(c) => c,
        None => ' ',
    }
}

/// Specifies `char::from_u32`: a Unicode scalar value is the code of a
/// character, and no other number is.
pub assume_specification[ char::from_u32 ](i: u32) -> (r: Option<char>)
    ensures
        r == (if i <= 0xD7FF || (0xE000 <= i <= 0x10FFFF) {
            Some(i as char)
        } else {
            None::<char>
        }),
;

/// The arithmetic extern `b` on the integers that `arg_0` and `arg_1` stand
/// for.
fn bin_op<ID: Handle>(state: &mut EvalState<ID>, b: Builtin) -> (r: Result<Value<ID>, SteelErr>)
    requires
        old(state).wf(),
        b != Builtin::Putchar,
    ensures
        *final(state) == *old(state),
        match r {
            Ok(value) => called(b, old(state)@).1 == Ok::<ValueView, ErrView>(value@),
            Err(e) => called(b, old(state)@).1 == Err::<ValueView, ErrView>(e@),
        },
        called(b, old(state)@).0 == old(state)@,
{
    let name = b.name_str();
    let l = match state.get_value_for("arg_0") {
        Err(e) => {
            return Err(e);
        },
        Ok(Some(Value::I64(l))) => *l,
        Ok(_) => {
            let arg = String::from_str("arg_0");
            assert(arg@ == "arg_0"@);
            return Err(SteelErr::MissingArgumentExpectedByExtern(String::from_str(name), arg));
        },
    };
    let r = match state.get_value_for("arg_1") {
        Err(e) => {
            return Err(e);
        },
        Ok(Some(Value::I64(r))) => *r,
        Ok(_) => {
            let arg = String::from_str("arg_1");
            assert(arg@ == "arg_1"@);
            return Err(SteelErr::MissingArgumentExpectedByExtern(String::from_str(name), arg));
        },
    };
    let op = match b {
        Builtin::Add => Operator::Add,
        Builtin::Sub => Operator::Sub,
        Builtin::Mul => Operator::Mul,
        _ => Operator::Div,
    };
    Ok(Value::I64(apply(op, l, r)))
}

impl<ID: Handle> Default for EvalState<ID> {
    /// The machine as it starts out; see [`fresh_machine`].
    fn default() -> (r: Self)
        ensures
            r.wf(),
            r@ == fresh_machine(),
    {
        let empty = EvalState {
            function_stack: Vec::new(),
            bindings: Scope::new(),
            mem_stack: Vec::new(),
            output: String::new(),
        };
        assert(empty@.frames =~= Seq::<FrameView>::empty());
        assert(empty@.memory =~= Seq::<ValueView>::empty());
        empty.register_extern(Impl::new(Builtin::Add)).register_extern(
            Impl::new(Builtin::Sub),
        ).register_extern(Impl::new(Builtin::Mul)).register_extern(
            Impl::new(Builtin::Div),
        ).register_extern(Impl::new(Builtin::Putchar))
    }
}

/// Makes the bindings of a frame, one after the other.
fn bind_all<ID: Handle>(state: &mut EvalState<ID>, bindings: &Vec<(String, MemIndex<ID>)>)
    requires
        old(state).wf(),
    ensures
        final(state).wf(),
        final(state)@ == (MachineView {
            scope: bound_all(old(state)@.scope, bindings_slots(bindings@)),
            ..old(state)@
        }),
{
    let ghost all = bindings_slots(bindings@);
    let mut i: usize = 0;
    assert(all.take(0) =~= Seq::<(Seq<char>, nat)>::empty());
    while i < bindings.len()
        invariant
            state.wf(),
            i <= bindings@.len(),
            all == bindings_slots(bindings@),
            state@ == (MachineView {
                scope: bound_all(old(state)@.scope, all.take(i as int)),
                ..old(state)@
            }),
        decreases bindings@.len() - i,
    {
        assert(all.take(i + 1).drop_last() =~= all.take(i as int));
        assert(all.take(i + 1).last() == (bindings@[i as int].0@, bindings@[i as int].1.id as nat));
        state.bind_name(bindings[i].0.as_str(), bindings[i].1);
        i += 1;
    }
    assert(all.take(i as int) =~= all);
}

/// Sets the machine up to run the call `call`, whose result goes to
/// `return_address`; see [`call_set_up`].
fn set_up_call<ID: Handle>(
    state: &mut EvalState<ID>,
    call: &Call<ID>,
    return_address: MemIndex<ID>,
)
    requires
        old(state).wf(),
    ensures
        final(state).wf(),
        final(state)@ == call_set_up(
            old(state)@,
            call@.callee,
            call@.args,
            return_address.id as nat,
        ),
{
    let ghost s = state@;
    let ghost args = call@.args;
    let n = call.args.len();
    let first = state.mem_stack.len();
    let mut slots: Vec<(String, MemIndex<ID>)> = Vec::new();
    let mut i: usize = 0;
    while i < n
        invariant
            state.wf(),
            i <= n == call.args@.len(),
            args == call@.args,
            first == s.memory.len(),
            state@ == (MachineView {
                memory: s.memory + Seq::new(i as nat, |k: int| ValueView::Uninit),
                ..s
            }),
            bindings_slots(slots@) == argument_bindings(args, first as nat).take(i as int),
        decreases n - i,
    {
        let ghost before = bindings_slots(slots@);
        let slot = state.allocate(Value::Uninit);
        assert(slot.id == first + i);
        assert(args[i as int] == (call.args@[i as int].0@, call.args@[i as int].1.index()));
        slots.push((call.args[i].0.clone(), slot));
        assert(bindings_slots(slots@) =~= before.push((args[i as int].0, (first + i) as nat)));
        assert(state@.memory =~= s.memory + Seq::new((i + 1) as nat, |k: int| ValueView::Uninit));
        assert(bindings_slots(slots@) =~= argument_bindings(args, first as nat).take(i + 1));
        i += 1;
    }
    assert(argument_bindings(args, first as nat).take(n as int) =~= argument_bindings(
        args,
        first as nat,
    ));
    state.setup_closure(call.callee, return_address, slots);
    let ghost base = state@;
    assert(base.memory =~= s.memory + Seq::new((n + 1) as nat, |k: int| ValueView::Uninit));
    let size = state.mem_stack.len();
    assert(base.memory.len() == size);
    assert(size == first + n + 1);
    let mut k: usize = 0;
    while k < n
        invariant
            state.wf(),
            k <= n == call.args@.len(),
            args == call@.args,
            first == s.memory.len(),
            first + n < usize::MAX,
            state@ == (MachineView {
                frames: base.frames + argument_frames(args, first as nat).take(k as int),
                ..base
            }),
        decreases n - k,
    {
        let i = n - 1 - k;
        let ghost before = state@.frames;
        state.setup_eval_to(
            FnPtr::StaticPtr(call.args[i].1),
            TypedIndex::new(first + i),
            Vec::new(),
        );
        proof {
            assert(bindings_slots(Seq::<(String, MemIndex<ID>)>::empty()) =~= Seq::<
                (Seq<char>, nat),
            >::empty());
            assert(argument_frames(args, first as nat)[k as int] == argument_frame(
                args,
                first as nat,
                i as int,
            ));
            assert(state@.frames =~= base.frames + argument_frames(args, first as nat).take(
                k + 1,
            ));
        }
        k += 1;
    }
    assert(argument_frames(args, first as nat).take(n as int) =~= argument_frames(
        args,
        first as nat,
    ));
}

/// Writes a copy of the value that `name` stands for to `return_address`;
/// see [`named_value`].
fn load_named<ID: Handle>(state: &mut EvalState<ID>, name: &str, return_address: MemIndex<ID>)
    -> (r: Result<(), SteelErr>)
    requires
        old(state).wf(),
    ensures
        final(state).wf(),
        final(state)@ == named_value(old(state)@, name@, return_address.id as nat).state,
        match r {
            Ok(()) => named_value(old(state)@, name@, return_address.id as nat).error is None,
            Err(e) => named_value(old(state)@, name@, return_address.id as nat).error == Some(e@),
        },
{
    let value = match state.get_value_for(name) {
        Err(e) => {
            return Err(e);
        },
        Ok(None) => {
            return Err(SteelErr::MissingValueForBinding(String::from_str(name)));
        },
        Ok(Some(value)) => value.clone(),
    };
    state.set_mem(return_address, value)
}

/// Runs the frame `target`: its bindings are made, then its target is
/// evaluated. A call is not evaluated on the spot: the machine is set up
/// to evaluate its arguments, then its callee, and then to call what the
/// callee came to.
pub fn perform<C: CompilerContext>(
    context: &C,
    state: &mut EvalState<C::ID>,
    target: &StackFrame<C::ID>,
) -> (r: Result<(), SteelErr>)
    requires
        context.wf(),
        old(state).wf(),
    ensures
        final(state).wf(),
        final(state)@ == performed(context.model(), old(state)@, target@).state,
        match r {
            Ok(()) => performed(context.model(), old(state)@, target@).error is None,
            Err(e) => performed(context.model(), old(state)@, target@).error == Some(e@),
        },
{
    bind_all(state, &target.bindings);
    let id = match target.fn_ptr {
        FnPtr::MemPtr(index) => {
            let func = match state.get_mem(index) {
                Ok(func) => func.clone(),
                Err(e) => {
                    return Err(e);
                },
            };
            let res = match func {
                Value::Extern(imp) => match state.run_extern(imp) {
                    Ok(res) => res,
                    Err(e) => {
                        return Err(e);
                    },
                },
                constant => constant,
            };
            return state.set_mem(target.return_address, res);
        },
        FnPtr::StaticPtr(id) => id,
    };
    if let Ok(c) = context.get_call(id) {
        set_up_call(state, c, target.return_address);
        return Ok(());
    }
    if let Ok(v) = context.get_i64(id) {
        return state.set_mem(target.return_address, Value::I64(*v));
    }
    if let Ok(op) = context.get_operator(id) {
        return load_named(state, op.token_str(), target.return_address);
    }
    if let Ok(s) = context.get_symbol(id) {
        return load_named(state, s.name.as_str(), target.return_address);
    }
    let expected = String::from_str("a node");
    assert(expected@ == "a node"@);
    Err(SteelErr::MalformedExpression(pretty(context, id), expected))
}

/// One step of the machine on the frame `target`, which was taken off the
/// stack.
pub fn step<C: CompilerContext>(
    context: &C,
    state: &mut EvalState<C::ID>,
    target: StackFrame<C::ID>,
) -> (r: Result<(), SteelErr>)
    requires
        context.wf(),
        old(state).wf(),
    ensures
        final(state).wf(),
        final(state)@ == performed(context.model(), old(state)@, target@).state,
        match r {
            Ok(()) => performed(context.model(), old(state)@, target@).error is None,
            Err(e) => performed(context.model(), old(state)@, target@).error == Some(e@),
        },
{
    perform(context, state, &target)
}

/// Runs the machine until no frame is left or a step ends in an error. The
/// program is only read. The machine stops: each step makes its memory
/// larger or its stack smaller, and the memory cannot outgrow the host.
pub fn eval<C: CompilerContext>(context: &C, state: &mut EvalState<C::ID>) -> (r: Result<
    (),
    SteelErr,
>)
    requires
        context.wf(),
        old(state).wf(),
    ensures
        final(state).wf(),
        final(state)@ == ran(context.model(), old(state)@).state,
        match r {
            Ok(()) => ran(context.model(), old(state)@).error is None,
            Err(e) => ran(context.model(), old(state)@).error == Some(e@),
        },
{
    let ghost m = context.model();
    loop
        invariant_except_break
            context.wf(),
            m == context.model(),
            state.wf(),
            ran(m, state@) == ran(m, old(state)@),
        ensures
            state.wf(),
            state@ == ran(m, old(state)@).state,
            ran(m, old(state)@).error is None,
        decreases usize::MAX - state.mem_stack@.len(), state.function_stack@.len(),
    {
        let ghost before = state@;
        let target = match state.function_stack.pop() {
            Some(target) => target,
            None => {
                break ;
            },
        };
        let ghost popped = state@;
        assert(popped.frames =~= before.frames.drop_last());
        assert(popped.memory =~= before.memory);
        assert(target@ == before.frames.last());
        assert(popped == MachineView { frames: before.frames.drop_last(), ..before });
        let done = step(context, state, target);
        let size = state.mem_stack.len();
        proof {
            assert(state@ == stepped(m, before).state);
            if stepped(m, before).error is None {
                lemma_step_progress(m, before);
                assert(room(state@) >= 0);
                assert(ran(m, before) == ran(m, state@));
            }
        }
        match done {
            Ok(()) => {},
            Err(e) => {
                return Err(e);
            },
        }
    }
    Ok(())
}

} // verus!

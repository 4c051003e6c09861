use crate::compiler_context::Model;
use crate::error::ErrView;
use crate::interpreter::{
    argument, argument_bindings, argument_frame, argument_frames, bound, bound_all, call_set_up,
    called, fine, fresh_machine, is_scalar, lemma_step_progress, live_slot, loaded, ran,
    stack_of, stepped, value_for, with_extern, Builtin, FrameView, MachineView, TargetView,
    ValueView,
};
use crate::nodes::{NodeView, Operator};
use crate::optimizer::{
    applied, calls_in, fold_pass, folded, fully_folded, integer_at, is_folded,
    lemma_fully_folded_unfolds, lemma_pass_makes_progress, operator_at, optimized, Optimizations,
};
use crate::{machine_for, value_of, written_by};
use vstd::prelude::*;

verus! {

/// What a program comes to: the integer that it evaluates to, and what it
/// writes on the way.
pub struct Meaning {
    pub value: i64,
    pub output: Seq<char>,
}

/// Whether `call` is a call of an operator node on exactly the arguments
/// `arg_0` and `arg_1`.
pub open spec fn is_sum(m: Model, call: crate::nodes::CallView) -> bool {
    &&& operator_at(m, call.callee) is Some
    &&& call.args.len() == 2
    &&& call.args[0].0 == "arg_0"@
    &&& call.args[1].0 == "arg_1"@
    &&& call.left == Some(call.args[0].1)
    &&& call.right == Some(call.args[1].1)
}

/// Whether `call` is a call of the symbol `putchar` on exactly the argument
/// `arg_0`.
pub open spec fn is_put(m: Model, call: crate::nodes::CallView) -> bool {
    &&& call.callee < m.len()
    &&& m[call.callee as int] == Some(NodeView::Symbol("putchar"@))
    &&& call.args.len() == 1
    &&& call.args[0].0 == "arg_0"@
}

/// What `putchar` comes to on the value `v` after `output` was written.
pub open spec fn put(v: i64, output: Seq<char>) -> Meaning {
    if is_scalar(v) {
        Meaning { value: 1, output: output.push(v as char) }
    } else {
        Meaning { value: 0, output }
    }
}

/// What the node `id` of the store `m` means, where the node is of the
/// programs that are told apart here: a constant; a call of an operator
/// node on exactly the arguments `arg_0` and `arg_1`, which are such
/// programs again; or a call of the symbol `putchar` on exactly the
/// argument `arg_0`, which is such a program again. The first argument
/// is evaluated first. `fuel` bounds the depth.
pub open spec fn meaning(m: Model, id: nat, fuel: nat) -> Option<Meaning>
    decreases fuel,
{
    if fuel == 0 || id >= m.len() {
        None
    } else {
        match m[id as int] {
            Some(NodeView::I64(v)) => Some(Meaning { value: v, output: Seq::empty() }),
            Some(NodeView::Call(call)) => if is_sum(m, call) {
                match (
                    meaning(m, call.args[0].1, (fuel - 1) as nat),
                    meaning(m, call.args[1].1, (fuel - 1) as nat),
                ) {
                    (Some(l), Some(r)) => Some(
                        Meaning {
                            value: applied(
                                operator_at(m, call.callee)->Some_0,
                                l.value,
                                r.value,
                            ),
                            output: l.output + r.output,
                        },
                    ),
                    _ => None,
                }
            } else if is_put(m, call) {
                match meaning(m, call.args[0].1, (fuel - 1) as nat) {
                    Some(inner) => Some(put(inner.value, inner.output)),
                    None => None,
                }
            } else {
                None
            },
            _ => None,
        }
    }
}

/// The number of memory slots that the evaluation of the node takes: one
/// for each argument of each call, and one for its callee.
pub open spec fn slots_for(m: Model, id: nat, fuel: nat) -> nat
    decreases fuel,
{
    if fuel == 0 || id >= m.len() {
        0
    } else {
        match m[id as int] {
            Some(NodeView::Call(call)) => if is_sum(m, call) {
                3 + slots_for(m, call.args[0].1, (fuel - 1) as nat) + slots_for(
                    m,
                    call.args[1].1,
                    (fuel - 1) as nat,
                )
            } else if is_put(m, call) {
                2 + slots_for(m, call.args[0].1, (fuel - 1) as nat)
            } else {
                0
            },
            _ => 0,
        }
    }
}

/// The slot in which the machine keeps the extern of an operator.
pub open spec fn slot_of(op: Operator) -> nat {
    match op {
        Operator::Add => 0,
        Operator::Sub => 1,
        Operator::Mul => 2,
        Operator::Div => 3,
    }
}

/// The extern of an operator.
pub open spec fn builtin_of(op: Operator) -> Builtin {
    match op {
        Operator::Add => Builtin::Add,
        Operator::Sub => Builtin::Sub,
        Operator::Mul => Builtin::Mul,
        Operator::Div => Builtin::Div,
    }
}

/// Whether the token of `op` stands for its extern in the machine `s`, and
/// for nothing else.
pub open spec fn knows(s: MachineView, op: Operator) -> bool {
    &&& stack_of(s.scope, op.token_text()) == seq![slot_of(op)]
    &&& slot_of(op) < s.memory.len()
    &&& s.memory[slot_of(op) as int] == ValueView::Extern(builtin_of(op))
}

/// Whether `putchar` stands for its extern in the machine `s`, and for
/// nothing else.
pub open spec fn knows_putchar(s: MachineView) -> bool {
    &&& stack_of(s.scope, "putchar"@) == seq![4nat]
    &&& 4 < s.memory.len()
    &&& s.memory[4] == ValueView::Extern(Builtin::Putchar)
}

/// Whether the four operators and `putchar` stand for their externs in the
/// machine `s`.
pub open spec fn ready(s: MachineView) -> bool {
    &&& knows(s, Operator::Add)
    &&& knows(s, Operator::Sub)
    &&& knows(s, Operator::Mul)
    &&& knows(s, Operator::Div)
    &&& knows_putchar(s)
}

/// The names that a call binds are no tokens of operators.
pub proof fn lemma_names()
    ensures
        forall|op: Operator|
            #![trigger op.token_text()]
            op.token_text() != "arg_0"@ && op.token_text() != "arg_1"@ && op.token_text()
                != "self"@,
        "arg_0"@ != "arg_1"@,
        "arg_0"@ != "self"@,
        "arg_1"@ != "self"@,
        Builtin::Add.name() == Operator::Add.token_text(),
        Builtin::Sub.name() == Operator::Sub.token_text(),
        Builtin::Mul.name() == Operator::Mul.token_text(),
        Builtin::Div.name() == Operator::Div.token_text(),
        Builtin::Putchar.name() == "putchar"@,
        "putchar"@.len() == 7,
        "putchar"@ != "arg_0"@ && "putchar"@ != "arg_1"@ && "putchar"@ != "self"@,
{
    reveal_strlit("arg_0");
    reveal_strlit("arg_1");
    reveal_strlit("self");
    reveal_strlit("+");
    reveal_strlit("-");
    reveal_strlit("*");
    reveal_strlit("/");
    reveal_strlit("putchar");
    assert("arg_0"@[4] != "arg_1"@[4]);
    assert("arg_0"@.len() != "self"@.len());
    assert("arg_1"@.len() != "self"@.len());
    assert("+"@ =~= Operator::Add.token_text());
    assert("-"@ =~= Operator::Sub.token_text());
    assert("*"@ =~= Operator::Mul.token_text());
    assert("/"@ =~= Operator::Div.token_text());
    assert forall|op: Operator|
        #![trigger op.token_text()]
        op.token_text() != "arg_0"@ && op.token_text() != "arg_1"@ && op.token_text()
            != "self"@ by {
        assert(op.token_text().len() == 1);
    }
}

/// The machine as it starts out is ready.
pub proof fn lemma_fresh_is_ready()
    ensures
        ready(fresh_machine()),
        fresh_machine().memory.len() == 5,
        fresh_machine().frames.len() == 0,
        fresh_machine().output.len() == 0,
{
    lemma_names();
    let s0 = MachineView {
        frames: Seq::empty(),
        scope: Map::empty(),
        memory: Seq::empty(),
        output: Seq::empty(),
    };
    let s1 = with_extern(s0, Builtin::Add);
    let s2 = with_extern(s1, Builtin::Sub);
    let s3 = with_extern(s2, Builtin::Mul);
    let s4 = with_extern(s3, Builtin::Div);
    let s5 = with_extern(s4, Builtin::Putchar);
    assert(fresh_machine() == s5);
    let add = Operator::Add.token_text();
    let sub = Operator::Sub.token_text();
    let mul = Operator::Mul.token_text();
    let div = Operator::Div.token_text();
    assert(add != sub && add != mul && add != div && sub != mul && sub != div && mul != div) by {
        assert(add[0] != sub[0] && add[0] != mul[0] && add[0] != div[0] && sub[0] != mul[0]
            && sub[0] != div[0] && mul[0] != div[0]);
    }
    assert(stack_of(s1.scope, add) =~= seq![0nat]);
    assert(stack_of(s2.scope, add) == stack_of(s1.scope, add));
    assert(stack_of(s2.scope, sub) =~= seq![1nat]);
    assert(stack_of(s3.scope, add) == stack_of(s2.scope, add));
    assert(stack_of(s3.scope, sub) == stack_of(s2.scope, sub));
    assert(stack_of(s3.scope, mul) =~= seq![2nat]);
    assert(stack_of(s4.scope, add) == stack_of(s3.scope, add));
    assert(stack_of(s4.scope, sub) == stack_of(s3.scope, sub));
    assert(stack_of(s4.scope, mul) == stack_of(s3.scope, mul));
    assert(stack_of(s4.scope, div) =~= seq![3nat]);
    assert(stack_of(s5.scope, add) == stack_of(s4.scope, add));
    assert(stack_of(s5.scope, sub) == stack_of(s4.scope, sub));
    assert(stack_of(s5.scope, mul) == stack_of(s4.scope, mul));
    assert(stack_of(s5.scope, div) == stack_of(s4.scope, div));
    let put = "putchar"@;
    assert(put != add && put != sub && put != mul && put != div);
    assert(stack_of(s1.scope, put) =~= Seq::<nat>::empty());
    assert(stack_of(s2.scope, put) == stack_of(s1.scope, put));
    assert(stack_of(s3.scope, put) == stack_of(s2.scope, put));
    assert(stack_of(s4.scope, put) == stack_of(s3.scope, put));
    assert(stack_of(s5.scope, put) =~= seq![4nat]);
}

/// A machine whose next step ends in no error runs as the machine after
/// that step does.
pub proof fn lemma_runs_on(m: Model, s: MachineView)
    requires
        s.frames.len() > 0,
        stepped(m, s).error is None,
        stepped(m, s).state.memory.len() <= usize::MAX,
    ensures
        ran(m, s) == ran(m, stepped(m, s).state),
{
    lemma_step_progress(m, s);
}

/// A machine stays ready where its memory is written above the externs or
/// grows, and its scope is as it was for the operators.
pub proof fn lemma_stays_ready(s: MachineView, t: MachineView)
    requires
        ready(s),
        t.memory.len() >= s.memory.len(),
        forall|k: int| 0 <= k < 5 ==> t.memory[k] == s.memory[k],
        forall|op: Operator|
            #![trigger op.token_text()]
            stack_of(t.scope, op.token_text()) == stack_of(s.scope, op.token_text()),
        stack_of(t.scope, "putchar"@) == stack_of(s.scope, "putchar"@),
    ensures
        ready(t),
{
    assert(knows(s, Operator::Add) && knows(s, Operator::Sub) && knows(s, Operator::Mul) && knows(
        s,
        Operator::Div,
    ));
    assert(stack_of(t.scope, Operator::Add.token_text()) == stack_of(
        s.scope,
        Operator::Add.token_text(),
    ));
    assert(stack_of(t.scope, Operator::Sub.token_text()) == stack_of(
        s.scope,
        Operator::Sub.token_text(),
    ));
    assert(stack_of(t.scope, Operator::Mul.token_text()) == stack_of(
        s.scope,
        Operator::Mul.token_text(),
    ));
    assert(stack_of(t.scope, Operator::Div.token_text()) == stack_of(
        s.scope,
        Operator::Div.token_text(),
    ));
}

/// The frame that evaluates the node `id` into the slot `ret`.
pub open spec fn code_frame(id: nat, ret: nat) -> FrameView {
    FrameView { target: TargetView::Code(id), return_slot: ret, bindings: Seq::empty() }
}

/// The bindings that a call of two arguments makes, whose slots start at
/// `first`.
pub open spec fn call_bindings(first: nat) -> Seq<(Seq<char>, nat)> {
    seq![("arg_0"@, first), ("arg_1"@, first + 1), ("self"@, first + 2)]
}

/// The bindings that a call of one argument makes, whose slots start at
/// `first`.
pub open spec fn put_bindings(first: nat) -> Seq<(Seq<char>, nat)> {
    seq![("arg_0"@, first), ("self"@, first + 1)]
}

/// The frame that calls what the slot `first + 2` holds on two arguments,
/// into the slot `ret`.
pub open spec fn closure_frame(first: nat, ret: nat) -> FrameView {
    FrameView {
        target: TargetView::Memory(first + 2),
        return_slot: ret,
        bindings: call_bindings(first),
    }
}

/// The frame that calls what the slot `first + 1` holds on one argument,
/// into the slot `ret`.
pub open spec fn put_frame(first: nat, ret: nat) -> FrameView {
    FrameView {
        target: TargetView::Memory(first + 1),
        return_slot: ret,
        bindings: put_bindings(first),
    }
}

/// The machine `s` with `frame` on top of its frames.
pub open spec fn with_frame(s: MachineView, frame: FrameView) -> MachineView {
    MachineView { frames: s.frames.push(frame), ..s }
}

/// The machine `s` with the value `value` in the slot `slot`.
pub open spec fn with_value(s: MachineView, slot: nat, value: ValueView) -> MachineView {
    MachineView { memory: s.memory.update(slot as int, value), ..s }
}

/// The machine `s` with three more slots, none of them initialized.
pub open spec fn with_three(s: MachineView) -> MachineView {
    MachineView {
        memory: s.memory + seq![ValueView::Uninit, ValueView::Uninit, ValueView::Uninit],
        ..s
    }
}

/// The machine `s` with two more slots, none of them initialized.
pub open spec fn with_two(s: MachineView) -> MachineView {
    MachineView { memory: s.memory + seq![ValueView::Uninit, ValueView::Uninit], ..s }
}

/// The machine after the node `id` was evaluated into the slot `ret`,
/// where the node has a meaning: what the frames of the evaluation have
/// made of the machine `s` once they are all gone.
pub open spec fn evaluated(m: Model, id: nat, fuel: nat, s: MachineView, ret: nat) -> MachineView
    decreases fuel,
{
    if fuel == 0 || id >= m.len() {
        s
    } else {
        match m[id as int] {
            Some(NodeView::I64(v)) => with_value(s, ret, ValueView::I64(v)),
            Some(NodeView::Call(call)) => {
                let first = s.memory.len();
                let f = (fuel - 1) as nat;
                if is_sum(m, call) {
                    let op = operator_at(m, call.callee)->Some_0;
                    let s1 = evaluated(m, call.args[0].1, f, with_three(s), first);
                    let s2 = evaluated(m, call.args[1].1, f, s1, first + 1);
                    let s3 = with_value(s2, first + 2, ValueView::Extern(builtin_of(op)));
                    MachineView {
                        scope: bound_all(s3.scope, call_bindings(first)),
                        ..with_value(s3, ret, ValueView::I64(meaning(m, id, fuel)->Some_0.value))
                    }
                } else if is_put(m, call) {
                    let s1 = evaluated(m, call.args[0].1, f, with_two(s), first);
                    let s2 = with_value(s1, first + 1, ValueView::Extern(Builtin::Putchar));
                    let inner = meaning(m, call.args[0].1, f)->Some_0;
                    MachineView {
                        scope: bound_all(s2.scope, put_bindings(first)),
                        output: put(inner.value, s1.output).output,
                        ..with_value(
                            s2,
                            ret,
                            ValueView::I64(put(inner.value, s1.output).value),
                        )
                    }
                } else {
                    s
                }
            },
            _ => s,
        }
    }
}

/// Three bindings are made one after the other.
pub proof fn lemma_three_bindings(scope: Map<Seq<char>, Seq<nat>>, first: nat)
    ensures
        bound_all(scope, call_bindings(first)) == bound(
            bound(bound(scope, "arg_0"@, first), "arg_1"@, first + 1),
            "self"@,
            first + 2,
        ),
{
    let all = call_bindings(first);
    let two = all.drop_last();
    let one = two.drop_last();
    assert(two =~= seq![("arg_0"@, first), ("arg_1"@, first + 1)]);
    assert(one =~= seq![("arg_0"@, first)]);
    assert(one.drop_last() =~= Seq::<(Seq<char>, nat)>::empty());
    assert(bound_all(scope, one.drop_last()) == scope);
    assert(bound_all(scope, one) == bound(scope, "arg_0"@, first));
    assert(bound_all(scope, two) == bound(bound_all(scope, one), "arg_1"@, first + 1));
}

/// Two bindings are made one after the other.
pub proof fn lemma_two_bindings(scope: Map<Seq<char>, Seq<nat>>, first: nat)
    ensures
        bound_all(scope, put_bindings(first)) == bound(
            bound(scope, "arg_0"@, first),
            "self"@,
            first + 1,
        ),
{
    let all = put_bindings(first);
    let one = all.drop_last();
    assert(one =~= seq![("arg_0"@, first)]);
    assert(one.drop_last() =~= Seq::<(Seq<char>, nat)>::empty());
    assert(bound_all(scope, one.drop_last()) == scope);
    assert(bound_all(scope, one) == bound(scope, "arg_0"@, first));
}

/// What the bindings of a call of two arguments make of the scope: the
/// arguments are bound to their slots, and the operators and `putchar` are
/// bound as before.
pub proof fn lemma_call_scope(scope: Map<Seq<char>, Seq<nat>>, first: nat)
    ensures
        stack_of(bound_all(scope, call_bindings(first)), "arg_0"@) == stack_of(
            scope,
            "arg_0"@,
        ).push(first),
        stack_of(bound_all(scope, call_bindings(first)), "arg_1"@) == stack_of(
            scope,
            "arg_1"@,
        ).push(first + 1),
        forall|op: Operator|
            #![trigger op.token_text()]
            stack_of(bound_all(scope, call_bindings(first)), op.token_text()) == stack_of(
                scope,
                op.token_text(),
            ),
        stack_of(bound_all(scope, call_bindings(first)), "putchar"@) == stack_of(
            scope,
            "putchar"@,
        ),
{
    lemma_three_bindings(scope, first);
    lemma_names();
    let a = bound(scope, "arg_0"@, first);
    let b = bound(a, "arg_1"@, first + 1);
    let c = bound(b, "self"@, first + 2);
    assert(stack_of(a, "arg_0"@) == stack_of(scope, "arg_0"@).push(first));
    assert(stack_of(b, "arg_0"@) == stack_of(a, "arg_0"@));
    assert(stack_of(c, "arg_0"@) == stack_of(b, "arg_0"@));
    assert(stack_of(a, "arg_1"@) == stack_of(scope, "arg_1"@));
    assert(stack_of(b, "arg_1"@) == stack_of(a, "arg_1"@).push(first + 1));
    assert(stack_of(c, "arg_1"@) == stack_of(b, "arg_1"@));
    assert forall|op: Operator|
        #![trigger op.token_text()]
        stack_of(c, op.token_text()) == stack_of(scope, op.token_text()) by {
        let name = op.token_text();
        assert(stack_of(a, name) == stack_of(scope, name));
        assert(stack_of(b, name) == stack_of(a, name));
        assert(stack_of(c, name) == stack_of(b, name));
    }
    let put = "putchar"@;
    assert(stack_of(a, put) == stack_of(scope, put));
    assert(stack_of(b, put) == stack_of(a, put));
    assert(stack_of(c, put) == stack_of(b, put));
}

/// What the bindings of a call of one argument make of the scope: the
/// argument is bound to its slot, and the operators and `putchar` are bound
/// as before.
pub proof fn lemma_put_scope(scope: Map<Seq<char>, Seq<nat>>, first: nat)
    ensures
        stack_of(bound_all(scope, put_bindings(first)), "arg_0"@) == stack_of(
            scope,
            "arg_0"@,
        ).push(first),
        forall|op: Operator|
            #![trigger op.token_text()]
            stack_of(bound_all(scope, put_bindings(first)), op.token_text()) == stack_of(
                scope,
                op.token_text(),
            ),
        stack_of(bound_all(scope, put_bindings(first)), "putchar"@) == stack_of(
            scope,
            "putchar"@,
        ),
{
    lemma_two_bindings(scope, first);
    lemma_names();
    let a = bound(scope, "arg_0"@, first);
    let c = bound(a, "self"@, first + 1);
    assert(stack_of(a, "arg_0"@) == stack_of(scope, "arg_0"@).push(first));
    assert(stack_of(c, "arg_0"@) == stack_of(a, "arg_0"@));
    assert forall|op: Operator|
        #![trigger op.token_text()]
        stack_of(c, op.token_text()) == stack_of(scope, op.token_text()) by {
        let name = op.token_text();
        assert(stack_of(a, name) == stack_of(scope, name));
        assert(stack_of(c, name) == stack_of(a, name));
    }
    let put = "putchar"@;
    assert(stack_of(a, put) == stack_of(scope, put));
    assert(stack_of(c, put) == stack_of(a, put));
}

/// The evaluation does not look at the frames, and leaves them as they
/// are.
pub proof fn lemma_evaluated_frames(
    m: Model,
    id: nat,
    fuel: nat,
    s: MachineView,
    ret: nat,
    frames: Seq<FrameView>,
)
    ensures
        evaluated(m, id, fuel, MachineView { frames, ..s }, ret) == (MachineView {
            frames,
            ..evaluated(m, id, fuel, s, ret)
        }),
        evaluated(m, id, fuel, s, ret).frames == s.frames,
    decreases fuel,
{
    if fuel == 0 || id >= m.len() {
    } else {
        match m[id as int] {
            Some(NodeView::Call(call)) => {
                let first = s.memory.len();
                let f = (fuel - 1) as nat;
                let t = MachineView { frames, ..s };
                if is_sum(m, call) {
                    lemma_evaluated_frames(m, call.args[0].1, f, with_three(s), first, frames);
                    assert(with_three(t) == MachineView { frames, ..with_three(s) });
                    let s1 = evaluated(m, call.args[0].1, f, with_three(s), first);
                    let t1 = evaluated(m, call.args[0].1, f, with_three(t), first);
                    assert(t1 == MachineView { frames, ..s1 });
                    lemma_evaluated_frames(m, call.args[1].1, f, s1, first + 1, frames);
                } else if is_put(m, call) {
                    lemma_evaluated_frames(m, call.args[0].1, f, with_two(s), first, frames);
                    assert(with_two(t) == MachineView { frames, ..with_two(s) });
                }
            },
            _ => {},
        }
    }
}

/// What the evaluation leaves behind: the value in the slot that it was
/// asked for, the slots that were there before as they were, as many new
/// slots as the evaluation takes, the output with what the node writes at
/// its end, and a machine that is ready.
pub proof fn lemma_evaluated(m: Model, id: nat, fuel: nat, s: MachineView, ret: nat)
    requires
        meaning(m, id, fuel) is Some,
        ready(s),
        5 <= ret < s.memory.len(),
    ensures
        ready(evaluated(m, id, fuel, s, ret)),
        evaluated(m, id, fuel, s, ret).frames == s.frames,
        evaluated(m, id, fuel, s, ret).output == s.output + meaning(m, id, fuel)->Some_0.output,
        evaluated(m, id, fuel, s, ret).memory.len() == s.memory.len() + slots_for(m, id, fuel),
        evaluated(m, id, fuel, s, ret).memory[ret as int] == ValueView::I64(
            meaning(m, id, fuel)->Some_0.value,
        ),
        forall|k: int|
            0 <= k < s.memory.len() && k != ret ==> evaluated(m, id, fuel, s, ret).memory[k]
                == s.memory[k],
    decreases fuel,
{
    let e = evaluated(m, id, fuel, s, ret);
    match m[id as int] {
        Some(NodeView::I64(v)) => {
            lemma_stays_ready(s, e);
            assert(s.output + Seq::<char>::empty() =~= s.output);
        },
        Some(NodeView::Call(call)) => {
            let first = s.memory.len();
            let f = (fuel - 1) as nat;
            if is_sum(m, call) {
                let op = operator_at(m, call.callee)->Some_0;
                let l = meaning(m, call.args[0].1, f)->Some_0;
                let r = meaning(m, call.args[1].1, f)->Some_0;
                let s0 = with_three(s);
                lemma_stays_ready(s, s0);
                lemma_evaluated(m, call.args[0].1, f, s0, first);
                let s1 = evaluated(m, call.args[0].1, f, s0, first);
                lemma_evaluated(m, call.args[1].1, f, s1, first + 1);
                let s2 = evaluated(m, call.args[1].1, f, s1, first + 1);
                let s3 = with_value(s2, first + 2, ValueView::Extern(builtin_of(op)));
                lemma_stays_ready(s2, s3);
                lemma_call_scope(s3.scope, first);
                lemma_stays_ready(s3, e);
                assert forall|k: int| 0 <= k < s.memory.len() && k != ret implies e.memory[k]
                    == s.memory[k] by {
                    assert(s0.memory[k] == s.memory[k]);
                    assert(s1.memory[k] == s0.memory[k]);
                    assert(s2.memory[k] == s1.memory[k]);
                }
                assert(s.output + l.output + r.output =~= s.output + (l.output + r.output));
            } else {
                let inner = meaning(m, call.args[0].1, f)->Some_0;
                let s0 = with_two(s);
                lemma_stays_ready(s, s0);
                lemma_evaluated(m, call.args[0].1, f, s0, first);
                let s1 = evaluated(m, call.args[0].1, f, s0, first);
                let s2 = with_value(s1, first + 1, ValueView::Extern(Builtin::Putchar));
                lemma_stays_ready(s1, s2);
                lemma_put_scope(s2.scope, first);
                lemma_stays_ready(s2, e);
                assert forall|k: int| 0 <= k < s.memory.len() && k != ret implies e.memory[k]
                    == s.memory[k] by {
                    assert(s0.memory[k] == s.memory[k]);
                    assert(s1.memory[k] == s0.memory[k]);
                }
                assert(put(inner.value, s1.output).output =~= s.output + put(
                    inner.value,
                    inner.output,
                ).output);
                assert(put(inner.value, s1.output).value == put(inner.value, inner.output).value);
            }
        },
        _ => {},
    }
}

/// Taking the latest frame off a machine that a frame was put on gives the
/// machine back.
pub proof fn lemma_pop(s: MachineView, frame: FrameView)
    ensures
        (MachineView { frames: with_frame(s, frame).frames.drop_last(), ..with_frame(s, frame) })
            == s,
        with_frame(s, frame).frames.last() == frame,
        with_frame(s, frame).frames.len() > 0,
{
    assert(s.frames.push(frame).drop_last() =~= s.frames);
}

/// The step of a frame that evaluates a constant writes the constant.
pub proof fn lemma_step_constant(m: Model, id: nat, s: MachineView, ret: nat, v: i64)
    requires
        id < m.len(),
        m[id as int] == Some(NodeView::I64(v)),
        ret < s.memory.len(),
    ensures
        stepped(m, with_frame(s, code_frame(id, ret))) == fine(
            with_value(s, ret, ValueView::I64(v)),
        ),
{
    lemma_pop(s, code_frame(id, ret));
    assert(bound_all(s.scope, Seq::<(Seq<char>, nat)>::empty()) == s.scope);
    let t = MachineView {
        scope: bound_all(s.scope, code_frame(id, ret).bindings),
        ..s
    };
    assert(t == s);
}

/// The machine set up for a call of two arguments: three new slots, and
/// over the frames a frame for the call itself, one for the callee, one
/// for the second argument and one for the first.
pub open spec fn set_up(s: MachineView, callee: nat, a: nat, b: nat, ret: nat) -> MachineView {
    let first = s.memory.len();
    with_frame(
        with_frame(
            with_frame(
                with_frame(with_three(s), closure_frame(first, ret)),
                code_frame(callee, first + 2),
            ),
            code_frame(b, first + 1),
        ),
        code_frame(a, first),
    )
}

/// The machine set up for a call of one argument: two new slots, and over
/// the frames a frame for the call itself, one for the callee and one for
/// the argument.
pub open spec fn set_up_put(s: MachineView, callee: nat, a: nat, ret: nat) -> MachineView {
    let first = s.memory.len();
    with_frame(
        with_frame(with_frame(with_two(s), put_frame(first, ret)), code_frame(callee, first + 1)),
        code_frame(a, first),
    )
}

/// The step of a frame that evaluates a call of two arguments sets the
/// machine up for the call.
pub proof fn lemma_step_call(
    m: Model,
    id: nat,
    s: MachineView,
    ret: nat,
    call: crate::nodes::CallView,
)
    requires
        id < m.len(),
        m[id as int] == Some(NodeView::Call(call)),
        call.args.len() == 2,
        call.args[0].0 == "arg_0"@,
        call.args[1].0 == "arg_1"@,
    ensures
        stepped(m, with_frame(s, code_frame(id, ret))) == fine(
            set_up(s, call.callee, call.args[0].1, call.args[1].1, ret),
        ),
{
    lemma_pop(s, code_frame(id, ret));
    assert(bound_all(s.scope, Seq::<(Seq<char>, nat)>::empty()) == s.scope);
    let t = MachineView {
        scope: bound_all(s.scope, code_frame(id, ret).bindings),
        ..s
    };
    assert(t == s);
    let first = s.memory.len();
    let made = call_set_up(s, call.callee, call.args, ret);
    let want = set_up(s, call.callee, call.args[0].1, call.args[1].1, ret);
    assert(argument_bindings(call.args, first).push(("self"@, first + 2)) =~= call_bindings(
        first,
    ));
    assert(argument_frames(call.args, first) =~= seq![
        code_frame(call.args[1].1, first + 1),
        code_frame(call.args[0].1, first),
    ]) by {
        assert(argument_frame(call.args, first, 1) == code_frame(call.args[1].1, first + 1));
        assert(argument_frame(call.args, first, 0) == code_frame(call.args[0].1, first));
    }
    assert(made.frames =~= want.frames);
    assert(made.memory =~= want.memory);
}

/// The step of a frame that evaluates a call of one argument sets the
/// machine up for the call.
pub proof fn lemma_step_put(
    m: Model,
    id: nat,
    s: MachineView,
    ret: nat,
    call: crate::nodes::CallView,
)
    requires
        id < m.len(),
        m[id as int] == Some(NodeView::Call(call)),
        call.args.len() == 1,
        call.args[0].0 == "arg_0"@,
    ensures
        stepped(m, with_frame(s, code_frame(id, ret))) == fine(
            set_up_put(s, call.callee, call.args[0].1, ret),
        ),
{
    lemma_pop(s, code_frame(id, ret));
    assert(bound_all(s.scope, Seq::<(Seq<char>, nat)>::empty()) == s.scope);
    let t = MachineView {
        scope: bound_all(s.scope, code_frame(id, ret).bindings),
        ..s
    };
    assert(t == s);
    let first = s.memory.len();
    let made = call_set_up(s, call.callee, call.args, ret);
    let want = set_up_put(s, call.callee, call.args[0].1, ret);
    assert(argument_bindings(call.args, first).push(("self"@, first + 1)) =~= put_bindings(
        first,
    ));
    assert(argument_frames(call.args, first) =~= seq![code_frame(call.args[0].1, first)]) by {
        assert(argument_frame(call.args, first, 0) == code_frame(call.args[0].1, first));
    }
    assert(made.frames =~= want.frames);
    assert(made.memory =~= want.memory);
}

/// The step of a frame that evaluates an operator node writes the extern
/// of the operator.
pub proof fn lemma_step_fetch(m: Model, id: nat, s: MachineView, slot: nat, op: Operator)
    requires
        id < m.len(),
        m[id as int] == Some(NodeView::Operator(op)),
        ready(s),
        slot < s.memory.len(),
    ensures
        stepped(m, with_frame(s, code_frame(id, slot))) == fine(
            with_value(s, slot, ValueView::Extern(builtin_of(op))),
        ),
{
    lemma_pop(s, code_frame(id, slot));
    assert(bound_all(s.scope, Seq::<(Seq<char>, nat)>::empty()) == s.scope);
    let t = MachineView {
        scope: bound_all(s.scope, code_frame(id, slot).bindings),
        ..s
    };
    assert(t == s);
    assert(knows(s, op));
    let stack = stack_of(s.scope, op.token_text());
    assert(stack.last() == slot_of(op));
    assert(live_slot(stack, s.memory.len()) == Some(slot_of(op)));
    assert(value_for(s, op.token_text()) == Ok::<Option<ValueView>, ErrView>(
        Some(ValueView::Extern(builtin_of(op))),
    ));
}

/// The step of a frame that evaluates the symbol `putchar` writes the
/// extern of that name.
pub proof fn lemma_step_fetch_put(m: Model, id: nat, s: MachineView, slot: nat)
    requires
        id < m.len(),
        m[id as int] == Some(NodeView::Symbol("putchar"@)),
        ready(s),
        slot < s.memory.len(),
    ensures
        stepped(m, with_frame(s, code_frame(id, slot))) == fine(
            with_value(s, slot, ValueView::Extern(Builtin::Putchar)),
        ),
{
    lemma_pop(s, code_frame(id, slot));
    assert(bound_all(s.scope, Seq::<(Seq<char>, nat)>::empty()) == s.scope);
    let t = MachineView {
        scope: bound_all(s.scope, code_frame(id, slot).bindings),
        ..s
    };
    assert(t == s);
    let stack = stack_of(s.scope, "putchar"@);
    assert(stack.last() == 4);
    assert(live_slot(stack, s.memory.len()) == Some(4nat));
    assert(value_for(s, "putchar"@) == Ok::<Option<ValueView>, ErrView>(
        Some(ValueView::Extern(Builtin::Putchar)),
    ));
}

/// The step of the frame of a call whose callee is the extern of an
/// operator and whose arguments are integers writes what the operator
/// makes of the integers.
pub proof fn lemma_step_closure(
    m: Model,
    s: MachineView,
    first: nat,
    ret: nat,
    op: Operator,
    l: i64,
    r: i64,
)
    requires
        first + 2 < s.memory.len(),
        ret < s.memory.len(),
        s.memory[first as int] == ValueView::I64(l),
        s.memory[(first + 1) as int] == ValueView::I64(r),
        s.memory[(first + 2) as int] == ValueView::Extern(builtin_of(op)),
    ensures
        stepped(m, with_frame(s, closure_frame(first, ret))) == fine(
            MachineView {
                scope: bound_all(s.scope, call_bindings(first)),
                ..with_value(s, ret, ValueView::I64(applied(op, l, r)))
            },
        ),
{
    lemma_pop(s, closure_frame(first, ret));
    lemma_call_scope(s.scope, first);
    lemma_names();
    let t = MachineView { scope: bound_all(s.scope, call_bindings(first)), ..s };
    assert(loaded(t, first + 2) == Ok::<ValueView, ErrView>(
        ValueView::Extern(builtin_of(op)),
    ));
    let left = stack_of(t.scope, "arg_0"@);
    assert(left.last() == first);
    assert(live_slot(left, t.memory.len()) == Some(first));
    assert(value_for(t, "arg_0"@) == Ok::<Option<ValueView>, ErrView>(Some(ValueView::I64(l))));
    let right = stack_of(t.scope, "arg_1"@);
    assert(right.last() == first + 1);
    assert(live_slot(right, t.memory.len()) == Some((first + 1) as nat));
    assert(value_for(t, "arg_1"@) == Ok::<Option<ValueView>, ErrView>(Some(ValueView::I64(r))));
    let b = builtin_of(op);
    assert(argument(t, b.name(), "arg_0"@) == Ok::<i64, ErrView>(l));
    assert(argument(t, b.name(), "arg_1"@) == Ok::<i64, ErrView>(r));
    assert(called(b, t) == (t, Ok::<ValueView, ErrView>(ValueView::I64(applied(op, l, r)))));
}

/// The step of the frame of a call whose callee is the extern `putchar`
/// and whose argument is an integer writes the character of that code, if
/// there is one, and says whether it did.
pub proof fn lemma_step_closure_put(m: Model, s: MachineView, first: nat, ret: nat, v: i64)
    requires
        first + 1 < s.memory.len(),
        ret < s.memory.len(),
        s.memory[first as int] == ValueView::I64(v),
        s.memory[(first + 1) as int] == ValueView::Extern(Builtin::Putchar),
    ensures
        stepped(m, with_frame(s, put_frame(first, ret))) == fine(
            MachineView {
                scope: bound_all(s.scope, put_bindings(first)),
                output: put(v, s.output).output,
                ..with_value(s, ret, ValueView::I64(put(v, s.output).value))
            },
        ),
{
    lemma_pop(s, put_frame(first, ret));
    lemma_put_scope(s.scope, first);
    let t = MachineView { scope: bound_all(s.scope, put_bindings(first)), ..s };
    assert(loaded(t, first + 1) == Ok::<ValueView, ErrView>(
        ValueView::Extern(Builtin::Putchar),
    ));
    let left = stack_of(t.scope, "arg_0"@);
    assert(left.last() == first);
    assert(live_slot(left, t.memory.len()) == Some(first));
    assert(value_for(t, "arg_0"@) == Ok::<Option<ValueView>, ErrView>(Some(ValueView::I64(v))));
}

/// A machine evaluates a node that has a meaning to that meaning: once the
/// frame that evaluates such a node is on a machine that is ready, and
/// there is room in the memory for the slots that the evaluation takes,
/// the machine runs as the machine does in which the value stands in the
/// slot that the frame named and the output was written.
pub proof fn lemma_evaluates(m: Model, id: nat, fuel: nat, s: MachineView, ret: nat)
    requires
        meaning(m, id, fuel) is Some,
        ready(s),
        5 <= ret < s.memory.len(),
        s.memory.len() + slots_for(m, id, fuel) <= usize::MAX,
    ensures
        ran(m, with_frame(s, code_frame(id, ret))) == ran(m, evaluated(m, id, fuel, s, ret)),
    decreases fuel,
{
    let start = with_frame(s, code_frame(id, ret));
    lemma_pop(s, code_frame(id, ret));
    match m[id as int] {
        Some(NodeView::I64(v)) => {
            lemma_step_constant(m, id, s, ret, v);
            lemma_runs_on(m, start);
        },
        Some(NodeView::Call(call)) => {
            if is_sum(m, call) {
                lemma_evaluates_sum(m, id, fuel, s, ret, call);
            } else {
                lemma_evaluates_put(m, id, fuel, s, ret, call);
            }
        },
        _ => {},
    }
}

/// The evaluation of a call of an operator, as `lemma_evaluates` says it
/// of every node.
pub proof fn lemma_evaluates_sum(
    m: Model,
    id: nat,
    fuel: nat,
    s: MachineView,
    ret: nat,
    call: crate::nodes::CallView,
)
    requires
        meaning(m, id, fuel) is Some,
        id < m.len(),
        m[id as int] == Some(NodeView::Call(call)),
        is_sum(m, call),
        ready(s),
        5 <= ret < s.memory.len(),
        s.memory.len() + slots_for(m, id, fuel) <= usize::MAX,
    ensures
        ran(m, with_frame(s, code_frame(id, ret))) == ran(m, evaluated(m, id, fuel, s, ret)),
    decreases fuel, 0nat,
{
    let start = with_frame(s, code_frame(id, ret));
    lemma_pop(s, code_frame(id, ret));
    let first = s.memory.len();
    let f = (fuel - 1) as nat;
    let op = operator_at(m, call.callee)->Some_0;
    let a = call.args[0].1;
    let b = call.args[1].1;
    let l = meaning(m, a, f)->Some_0.value;
    let r = meaning(m, b, f)->Some_0.value;
    // the call is set up
    lemma_step_call(m, id, s, ret, call);
    lemma_runs_on(m, start);
    let s0 = with_three(s);
    lemma_stays_ready(s, s0);
    let under_a = with_frame(
        with_frame(with_frame(s0, closure_frame(first, ret)), code_frame(call.callee, first + 2)),
        code_frame(b, first + 1),
    );
    assert(set_up(s, call.callee, a, b, ret) == with_frame(under_a, code_frame(a, first)));
    // the first argument
    lemma_stays_ready(s0, under_a);
    lemma_evaluates(m, a, f, under_a, first);
    lemma_evaluated_frames(m, a, f, s0, first, under_a.frames);
    lemma_evaluated(m, a, f, s0, first);
    let s1 = evaluated(m, a, f, s0, first);
    let e1 = evaluated(m, a, f, under_a, first);
    assert(under_a == MachineView { frames: under_a.frames, ..s0 });
    assert(e1 == MachineView { frames: under_a.frames, ..s1 });
    // the second argument
    let under_b = MachineView {
        frames: s.frames.push(closure_frame(first, ret)).push(code_frame(call.callee, first + 2)),
        ..s1
    };
    assert(e1 == with_frame(under_b, code_frame(b, first + 1)));
    lemma_stays_ready(s1, under_b);
    lemma_evaluates(m, b, f, under_b, first + 1);
    lemma_evaluated_frames(m, b, f, s1, first + 1, under_b.frames);
    lemma_evaluated(m, b, f, s1, first + 1);
    let s2 = evaluated(m, b, f, s1, first + 1);
    let e2 = evaluated(m, b, f, under_b, first + 1);
    assert(under_b == MachineView { frames: under_b.frames, ..s1 });
    assert(e2 == MachineView { frames: under_b.frames, ..s2 });
    // the callee
    let under_c = MachineView { frames: s.frames.push(closure_frame(first, ret)), ..s2 };
    assert(e2 == with_frame(under_c, code_frame(call.callee, first + 2)));
    lemma_stays_ready(s2, under_c);
    lemma_step_fetch(m, call.callee, under_c, first + 2, op);
    lemma_runs_on(m, e2);
    let e3 = with_value(under_c, first + 2, ValueView::Extern(builtin_of(op)));
    // the call itself
    let under_d = MachineView { frames: s.frames, ..e3 };
    assert(e3 == with_frame(under_d, closure_frame(first, ret)));
    assert(under_d.memory[first as int] == ValueView::I64(l)) by {
        assert(s1.memory[first as int] == ValueView::I64(l));
        assert(s2.memory[first as int] == s1.memory[first as int]);
    }
    assert(under_d.memory[(first + 1) as int] == ValueView::I64(r));
    lemma_step_closure(m, under_d, first, ret, op, l, r);
    lemma_runs_on(m, e3);
    let s3 = with_value(s2, first + 2, ValueView::Extern(builtin_of(op)));
    assert(under_d == s3) by {
        lemma_evaluated_frames(m, b, f, s1, first + 1, s1.frames);
        lemma_evaluated_frames(m, a, f, s0, first, s0.frames);
    }
}

/// The evaluation of a call of `putchar`, as `lemma_evaluates` says it of
/// every node.
pub proof fn lemma_evaluates_put(
    m: Model,
    id: nat,
    fuel: nat,
    s: MachineView,
    ret: nat,
    call: crate::nodes::CallView,
)
    requires
        meaning(m, id, fuel) is Some,
        id < m.len(),
        m[id as int] == Some(NodeView::Call(call)),
        !is_sum(m, call),
        ready(s),
        5 <= ret < s.memory.len(),
        s.memory.len() + slots_for(m, id, fuel) <= usize::MAX,
    ensures
        ran(m, with_frame(s, code_frame(id, ret))) == ran(m, evaluated(m, id, fuel, s, ret)),
    decreases fuel, 0nat,
{
    let start = with_frame(s, code_frame(id, ret));
    lemma_pop(s, code_frame(id, ret));
    let first = s.memory.len();
    let f = (fuel - 1) as nat;
    let a = call.args[0].1;
    let v = meaning(m, a, f)->Some_0.value;
    // the call is set up
    lemma_step_put(m, id, s, ret, call);
    lemma_runs_on(m, start);
    let s0 = with_two(s);
    lemma_stays_ready(s, s0);
    let under_a = with_frame(
        with_frame(s0, put_frame(first, ret)),
        code_frame(call.callee, first + 1),
    );
    assert(set_up_put(s, call.callee, a, ret) == with_frame(under_a, code_frame(a, first)));
    // the argument
    lemma_stays_ready(s0, under_a);
    lemma_evaluates(m, a, f, under_a, first);
    lemma_evaluated_frames(m, a, f, s0, first, under_a.frames);
    lemma_evaluated(m, a, f, s0, first);
    let s1 = evaluated(m, a, f, s0, first);
    let e1 = evaluated(m, a, f, under_a, first);
    assert(under_a == MachineView { frames: under_a.frames, ..s0 });
    assert(e1 == MachineView { frames: under_a.frames, ..s1 });
    // the callee
    let under_c = MachineView { frames: s.frames.push(put_frame(first, ret)), ..s1 };
    assert(e1 == with_frame(under_c, code_frame(call.callee, first + 1)));
    lemma_stays_ready(s1, under_c);
    lemma_step_fetch_put(m, call.callee, under_c, first + 1);
    lemma_runs_on(m, e1);
    let e2 = with_value(under_c, first + 1, ValueView::Extern(Builtin::Putchar));
    // the call itself
    let under_d = MachineView { frames: s.frames, ..e2 };
    assert(e2 == with_frame(under_d, put_frame(first, ret)));
    assert(under_d.memory[first as int] == ValueView::I64(v));
    lemma_step_closure_put(m, under_d, first, ret, v);
    lemma_runs_on(m, e2);
    let s2 = with_value(s1, first + 1, ValueView::Extern(Builtin::Putchar));
    assert(under_d == s2) by {
        lemma_evaluated_frames(m, a, f, s0, first, s0.frames);
    }
}

/// A pass of constant folding leaves a node that has a meaning at its
/// meaning, and its evaluation takes no more slots than before.
pub proof fn lemma_pass_keeps_meaning(m: Model, id: nat, fuel: nat)
    requires
        meaning(m, id, fuel) is Some,
    ensures
        meaning(fold_pass(m), id, fuel) == meaning(m, id, fuel),
        slots_for(fold_pass(m), id, fuel) <= slots_for(m, id, fuel),
    decreases fuel,
{
    let after = fold_pass(m);
    let f = (fuel - 1) as nat;
    match m[id as int] {
        Some(NodeView::I64(v)) => {
            assert(folded(m, id) is None);
            assert(after[id as int] == m[id as int]);
        },
        Some(NodeView::Call(call)) => {
            let a = call.args[0].1;
            lemma_pass_keeps_meaning(m, a, f);
            assert(folded(m, call.callee) is None);
            assert(after[call.callee as int] == m[call.callee as int]);
            if is_sum(m, call) {
                let b = call.args[1].1;
                let op = operator_at(m, call.callee)->Some_0;
                lemma_pass_keeps_meaning(m, b, f);
                assert(operator_at(after, call.callee) == Some(op));
                match folded(m, id) {
                    Some(x) => {
                        assert(after[id as int] == Some(NodeView::I64(x)));
                        assert(integer_at(m, call.left) == Some(meaning(m, a, f)->Some_0.value));
                        assert(integer_at(m, call.right) == Some(meaning(m, b, f)->Some_0.value));
                        assert(meaning(m, a, f)->Some_0.output + meaning(m, b, f)->Some_0.output
                            =~= Seq::<char>::empty());
                    },
                    None => {
                        assert(after[id as int] == m[id as int]);
                        assert(is_sum(after, call));
                    },
                }
            } else {
                assert(operator_at(m, call.callee) is None);
                assert(folded(m, id) is None);
                assert(after[id as int] == m[id as int]);
                assert(operator_at(after, call.callee) is None);
                assert(!is_sum(after, call));
                assert(is_put(after, call));
            }
        },
        _ => {},
    }
}

/// Constant folding to a fixed point leaves a node that has a meaning at
/// its meaning, and its evaluation takes no more slots than before.
pub proof fn lemma_folding_keeps_meaning(m: Model, id: nat, fuel: nat)
    requires
        meaning(m, id, fuel) is Some,
    ensures
        meaning(fully_folded(m), id, fuel) == meaning(m, id, fuel),
        slots_for(fully_folded(m), id, fuel) <= slots_for(m, id, fuel),
    decreases calls_in(m),
{
    lemma_fully_folded_unfolds(m);
    if !is_folded(m) {
        lemma_pass_makes_progress(m);
        lemma_pass_keeps_meaning(m, id, fuel);
        lemma_folding_keeps_meaning(fold_pass(m), id, fuel);
    }
}

/// What a program that has a meaning comes to on a fresh machine: it
/// evaluates to the value of its meaning, and writes the output of its
/// meaning.
pub proof fn lemma_program_value(m: Model, root: nat, fuel: nat, program_txt: Seq<char>)
    requires
        meaning(m, root, fuel) is Some,
        6 + slots_for(m, root, fuel) <= usize::MAX,
    ensures
        value_of(m, root, program_txt) == Ok::<i64, ErrView>(
            meaning(m, root, fuel)->Some_0.value,
        ),
        written_by(m, root) == meaning(m, root, fuel)->Some_0.output,
{
    lemma_fresh_is_ready();
    let fresh = fresh_machine();
    let s = MachineView { memory: fresh.memory.push(ValueView::Uninit), ..fresh };
    lemma_stays_ready(fresh, s);
    assert(machine_for(root) == with_frame(s, code_frame(root, 5)));
    lemma_evaluates(m, root, fuel, s, 5);
    lemma_evaluated(m, root, fuel, s, 5);
    let end = evaluated(m, root, fuel, s, 5);
    assert(end.frames.len() == 0);
    assert(ran(m, end) == fine(end));
    assert(s.output + meaning(m, root, fuel)->Some_0.output =~= meaning(
        m,
        root,
        fuel,
    )->Some_0.output);
}

/// Optimizing keeps what a program means, for the programs that `meaning`
/// tells apart: where the root of a program is a constant, a call of an
/// operator node on exactly the arguments `arg_0` and `arg_1`, or a call of
/// the symbol `putchar` on exactly the argument `arg_0`, with such nodes
/// again for arguments, and the memory has room for its evaluation, the
/// program evaluates to the same integer and writes the same output before
/// and after the optimizer has run: the value and the output of its
/// meaning.
pub proof fn lemma_optimizer_is_sound(
    m: Model,
    root: nat,
    fuel: nat,
    optimizations: Optimizations,
    program_txt: Seq<char>,
)
    requires
        meaning(m, root, fuel) is Some,
        6 + slots_for(m, root, fuel) <= usize::MAX,
    ensures
        value_of(optimized(m, optimizations), root, program_txt) == value_of(
            m,
            root,
            program_txt,
        ),
        value_of(m, root, program_txt) == Ok::<i64, ErrView>(
            meaning(m, root, fuel)->Some_0.value,
        ),
        written_by(optimized(m, optimizations), root) == written_by(m, root),
        written_by(m, root) == meaning(m, root, fuel)->Some_0.output,
{
    lemma_program_value(m, root, fuel, program_txt);
    if optimizations.constant_folding {
        lemma_folding_keeps_meaning(m, root, fuel);
        lemma_program_value(fully_folded(m), root, fuel, program_txt);
    }
}

} // verus!

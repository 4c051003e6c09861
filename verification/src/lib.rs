use vstd::prelude::*;

pub mod arena;
pub mod ast;
pub mod compact_arena;
pub mod compiler_context;
pub mod ecs;
pub mod error;
pub mod gen_code;
pub mod interpreter;
pub mod nodes;
pub mod optimizer;
pub mod parser;
pub mod pretty_printer;
pub mod round_trip;
pub mod soundness;
pub mod text;
pub mod tombstoning_arena;
pub mod typed_index;

pub use crate::compiler_context::CompilerContext;
pub use crate::error::SteelErr;

use crate::compiler_context::{Model, Store, StoreModel};
use crate::error::ErrView;
use crate::interpreter::{
    allocated, eval, fresh_machine, pushed, ran, EvalState, FnPtr, FrameView,
    MachineView, MemIndex, TargetView, Value, ValueView,
};
use crate::optimizer::{optimized, Optimizations};
use crate::parser::{p_program, program};
use crate::pretty_printer::pretty_text;
use crate::text::{quote, quoted};
use crate::typed_index::Handle;
use vstd::string::*;

verus! {

/// Where the program comes from.
#[derive(Debug)]
pub enum GetProgram<'a, ID> {
    Nothing,
    FromStr(&'a str),
    FromStore(ID),
}

impl<'a, ID> Default for GetProgram<'a, ID> {
    fn default() -> (r: Self)
        ensures
            r is Nothing,
    {
        GetProgram::Nothing
    }
}

/// What to do with a program, in this order: read it, print it, optimize
/// it, print it again, evaluate it.
#[derive(Debug)]
#[non_exhaustive]
pub struct Tasks<'a, ID> {
    program: GetProgram<'a, ID>,
    print: bool,
    optimize: Optimizations,
    print_optimized: bool,
    eval: bool,
}

/// Where the program comes from, as mathematics.
pub enum Source {
    Nothing,
    Text(Seq<char>),
    Stored(nat),
}

pub struct TasksView {
    pub program: Source,
    pub print: bool,
    pub optimize: Optimizations,
    pub print_optimized: bool,
    pub eval: bool,
}

impl<'a, ID: Handle> View for Tasks<'a, ID> {
    type V = TasksView;

    closed spec fn view(&self) -> TasksView {
        TasksView {
            program: match self.program {
                GetProgram::Nothing => Source::Nothing,
                GetProgram::FromStr(text) => Source::Text(text@),
                GetProgram::FromStore(id) => Source::Stored(id.index()),
            },
            print: self.print,
            optimize: self.optimize,
            print_optimized: self.print_optimized,
            eval: self.eval,
        }
    }
}

/// The tasks that do nothing with the program from `program`.
pub open spec fn only(program: Source) -> TasksView {
    TasksView {
        program,
        print: false,
        optimize: Optimizations { constant_folding: false },
        print_optimized: false,
        eval: false,
    }
}

impl<'a, ID: Handle> Default for Tasks<'a, ID> {
    fn default() -> (r: Self)
        ensures
            r@ == only(Source::Nothing),
    {
        Self {
            program: GetProgram::Nothing,
            print: false,
            optimize: Optimizations::none(),
            print_optimized: false,
            eval: false,
        }
    }
}

impl<'a, ID: Handle> Tasks<'a, ID> {
    /// Reads the program from `program`, and does nothing else.
    pub fn parse(program: &'a str) -> (r: Self)
        ensures
            r@ == only(Source::Text(program@)),
    {
        Self { program: GetProgram::FromStr(program), ..Self::default() }
    }

    /// Takes the program that the store holds under `program`.
    pub fn pre_parsed(program: ID) -> (r: Self)
        ensures
            r@ == only(Source::Stored(program.index())),
    {
        Self { program: GetProgram::FromStore(program), ..Self::default() }
    }

    pub fn and_optimize(self) -> (r: Self)
        ensures
            r@ == (TasksView { optimize: Optimizations { constant_folding: true }, ..self@ }),
    {
        Self { optimize: self.optimize.all(), ..self }
    }

    pub fn and_print(self) -> (r: Self)
        ensures
            r@ == (TasksView { print: true, ..self@ }),
    {
        Self { print: true, ..self }
    }

    pub fn and_print_optimized(self) -> (r: Self)
        ensures
            r@ == (TasksView { print_optimized: true, ..self@ }),
    {
        Self { print_optimized: true, ..self }
    }

    pub fn and_eval(self) -> (r: Self)
        ensures
            r@ == (TasksView { eval: true, ..self@ }),
    {
        Self { eval: true, ..self }
    }

    /// Reads the program from `program` and does everything with it.
    pub fn all(program: &'a str) -> (r: Self)
        ensures
            r@ == (TasksView {
                program: Source::Text(program@),
                print: true,
                optimize: Optimizations { constant_folding: true },
                print_optimized: true,
                eval: true,
            }),
    {
        Self::parse(program).and_print().and_optimize().and_print_optimized().and_eval()
    }
}

/// What a run has to say: the text that the program wrote, and the lines
/// that the driver wrote about it. The library gathers them; whoever runs
/// it sends the one to standard output and the others to standard error.
#[derive(Debug)]
pub struct Console {
    pub out: String,
    pub err: Vec<String>,
}

pub struct ConsoleView {
    pub out: Seq<char>,
    pub err: Seq<Seq<char>>,
}

impl View for Console {
    type V = ConsoleView;

    open spec fn view(&self) -> ConsoleView {
        ConsoleView { out: self.out@, err: Seq::new(self.err@.len(), |i: int| self.err@[i]@) }
    }
}

impl Console {
    pub fn new() -> (r: Self)
        ensures
            r@.out == Seq::<char>::empty(),
            r@.err == Seq::<Seq<char>>::empty(),
    {
        let r = Console { out: String::new(), err: Vec::new() };
        assert(r@.err =~= Seq::<Seq<char>>::empty());
        r
    }

    /// Notes a line for standard error.
    fn note(&mut self, line: String)
        ensures
            final(self)@ == (ConsoleView { err: old(self)@.err.push(line@), ..old(self)@ }),
    {
        self.err.push(line);
        assert(self@.err =~= old(self)@.err.push(line@));
    }
}

/// The machine that is set to evaluate the node `root`: the fresh machine
/// with one more slot, for the result, and one frame.
pub open spec fn machine_for(root: nat) -> MachineView {
    pushed(
        allocated(fresh_machine(), ValueView::Uninit),
        FrameView {
            target: TargetView::Code(root),
            return_slot: fresh_machine().memory.len(),
            bindings: Seq::empty(),
        },
    )
}

/// What the program under `root` writes when it is evaluated, up to where
/// the evaluation ends.
pub open spec fn written_by(m: Model, root: nat) -> Seq<char> {
    ran(m, machine_for(root)).state.output
}

/// What the program under `root` evaluates to: the integer that ends up in
/// the result slot. An error of the evaluation is the program's error; a
/// result slot that holds no integer in the end is an error too.
pub open spec fn value_of(m: Model, root: nat, program_txt: Seq<char>) -> Result<i64, ErrView> {
    let end = ran(m, machine_for(root));
    let slot = fresh_machine().memory.len();
    match end.error {
        Some(e) => Err(e),
        None => if slot >= end.state.memory.len() {
            Err(ErrView::ReliedOnOutOfBoundsMemory(slot as usize))
        } else {
            match end.state.memory[slot as int] {
                ValueView::I64(v) => Ok(v),
                ValueView::Uninit => Err(ErrView::ReliedOnUninitializedMemory(slot as usize)),
                ValueView::Extern(_) => Err(
                    ErrView::MalformedExpression(program_txt, "an integer as the result"@),
                ),
            }
        },
    }
}

/// Evaluates the program under `expr` on a fresh machine. What the program
/// writes is added to `console.out`, also where the evaluation fails.
/// `program_txt` is the program's text, for the error of a program that
/// evaluates to no integer.
pub fn eval_program<C: CompilerContext>(
    store: &mut C,
    expr: C::ID,
    program_txt: &str,
    console: &mut Console,
) -> (r: Result<i64, SteelErr>)
    requires
        old(store).wf(),
    ensures
        final(store).wf(),
        final(store).model() == old(store).model(),
        final(console)@ == (ConsoleView {
            out: old(console)@.out + written_by(old(store).model(), expr.index()),
            ..old(console)@
        }),
        match r {
            Ok(v) => value_of(old(store).model(), expr.index(), program_txt@) == Ok::<
                i64,
                ErrView,
            >(v),
            Err(e) => value_of(old(store).model(), expr.index(), program_txt@) == Err::<
                i64,
                ErrView,
            >(e@),
        },
{
    let mut state: EvalState<C::ID> = EvalState::default();
    let result_index = state.setup_eval(FnPtr::StaticPtr(expr), Vec::new());
    proof {
        assert(crate::interpreter::bindings_slots(Seq::<(String, MemIndex<C::ID>)>::empty())
            =~= Seq::<(Seq<char>, nat)>::empty());
        assert(state@ == machine_for(expr.index()));
    }
    let done = eval(store, &mut state);
    console.out.append(state.output.as_str());
    match done {
        Ok(()) => {},
        Err(e) => {
            return Err(e);
        },
    }
    if result_index.id >= state.mem_stack.len() {
        return Err(SteelErr::ReliedOnOutOfBoundsMemory(result_index.id));
    }
    match &state.mem_stack[result_index.id] {
        Value::I64(res) => Ok(*res),
        Value::Extern(_func) => {
            let expected = String::from_str("an integer as the result");
            assert(expected@ == "an integer as the result"@);
            Err(SteelErr::MalformedExpression(String::from_str(program_txt), expected))
        },
        Value::Uninit => Err(SteelErr::ReliedOnUninitializedMemory(result_index.id)),
    }
}

/// What the tasks `t` come to on a store that holds `m`.
pub struct Handled {
    /// What the store holds in the end.
    pub model: Model,
    /// The root of the program, if there was a program, and what it
    /// evaluated to, or zero where it was not evaluated.
    pub result: Result<(Option<nat>, i64), ErrView>,
    /// The lines for standard error.
    pub err: Seq<Seq<char>>,
    /// What the program wrote.
    pub out: Seq<char>,
}

/// The line that shows the program under `root`.
pub open spec fn shown(m: Model, root: nat) -> Seq<char> {
    " "@ + quoted(pretty_text(m, root))
}

/// What the tasks `t` come to once the program is in the store `m` under
/// `root`; `text` is the program's text.
pub open spec fn handled_from(m: Model, root: nat, text: Seq<char>, t: TasksView) -> Handled {
    let first = if t.print {
        seq![shown(m, root)]
    } else {
        Seq::empty()
    };
    let better = optimized(m, t.optimize);
    let lines = if t.print_optimized {
        first.push(shown(better, root))
    } else {
        first
    };
    if t.eval {
        Handled {
            model: better,
            result: match value_of(better, root, text) {
                Ok(v) => Ok((Some(root), v)),
                Err(e) => Err(e),
            },
            err: lines,
            out: written_by(better, root),
        }
    } else {
        Handled { model: better, result: Ok((Some(root), 0)), err: lines, out: Seq::empty() }
    }
}

/// What the tasks `t` come to on a store that holds `m`.
pub open spec fn handled(m: Model, t: TasksView) -> Handled {
    match t.program {
        Source::Nothing => Handled {
            model: m,
            result: Ok((None, 0)),
            err: Seq::empty(),
            out: Seq::empty(),
        },
        Source::Text(text) => {
            let parsed = p_program(text, m.len());
            match parsed.result {
                Err(e) => Handled {
                    model: m + parsed.added,
                    result: Err(e),
                    err: Seq::empty(),
                    out: Seq::empty(),
                },
                Ok((_, root)) => handled_from(m + parsed.added, root, text, t),
            }
        },
        Source::Stored(root) => handled_from(m, root, pretty_text(m, root), t),
    }
}

/// Whether `r` is the result that `h` names.
pub open spec fn is_result<ID: Handle>(
    r: Result<(Option<ID>, i64), SteelErr>,
    h: Result<(Option<nat>, i64), ErrView>,
) -> bool {
    match r {
        Ok((Some(id), v)) => h == Ok::<(Option<nat>, i64), ErrView>((Some(id.index()), v)),
        Ok((None, v)) => h == Ok::<(Option<nat>, i64), ErrView>((None, v)),
        Err(e) => h == Err::<(Option<nat>, i64), ErrView>(e@),
    }
}

/// Does with a program what `steps` says, on the store `store`: reads it
/// into the store, prints it, optimizes it, prints it again, evaluates it.
/// The lines that show the program and what the program writes are added
/// to `console`. The result is the root of the program and what it
/// evaluated to, or zero where it was not evaluated.
pub fn handle_steps<C: CompilerContext>(
    store: &mut C,
    steps: Tasks<C::ID>,
    console: &mut Console,
) -> (r: Result<(Option<C::ID>, i64), SteelErr>) where SteelErr: From<C::E>
    requires
        old(store).wf(),
    ensures
        final(store).wf(),
        final(store).model() == handled(old(store).model(), steps@).model,
        is_result(r, handled(old(store).model(), steps@).result),
        final(console)@.err == old(console)@.err + handled(old(store).model(), steps@).err,
        final(console)@.out == old(console)@.out + handled(old(store).model(), steps@).out,
{
    let ghost start = console@;
    assert(start.err + Seq::<Seq<char>>::empty() =~= start.err);
    assert(start.out + Seq::<char>::empty() =~= start.out);
    let (program_txt, expr) = match steps.program {
        GetProgram::Nothing => {
            return Ok((None, 0));
        },
        GetProgram::FromStr(program_txt) => {
            let (_input, expr) = match program(store, program_txt) {
                Ok(parsed) => parsed,
                Err(e) => {
                    return Err(e);
                },
            };
            (String::from_str(program_txt), expr)
        },
        GetProgram::FromStore(expr) => (store.pretty(expr), expr),
    };
    let ghost m = store.model();
    let ghost plan = handled_from(m, expr.index(), program_txt@, steps@);
    assert(handled(old(store).model(), steps@) == plan);
    if steps.print {
        let line = String::from_str(" ").concat(quote(store.pretty(expr).as_str()).as_str());
        console.note(line);
    }
    let ghost first = console@;
    let expr = match store.optimize(&steps.optimize, expr) {
        Ok(expr) => expr,
        Err(e) => {
            return Err(SteelErr::from(e));
        },
    };
    if steps.print_optimized {
        let line = String::from_str(" ").concat(quote(store.pretty(expr).as_str()).as_str());
        console.note(line);
    }
    assert(console@.err =~= start.err + plan.err);
    if steps.eval {
        return match eval_program(store, expr, program_txt.as_str(), console) {
            Ok(value) => Ok((Some(expr), value)),
            Err(e) => Err(e),
        };
    }
    Ok((Some(expr), 0))
}

/// Does with a program what `steps` says, on a new store.
pub fn handle<C: CompilerContext>(steps: Tasks<C::ID>, console: &mut Console) -> (r: Result<
    (Option<C::ID>, i64),
    SteelErr,
>) where SteelErr: From<C::E>
    ensures
        is_result(r, handled(Seq::empty(), steps@).result),
        final(console)@.err == old(console)@.err + handled(Seq::empty(), steps@).err,
        final(console)@.out == old(console)@.out + handled(Seq::empty(), steps@).out,
{
    let mut store = C::new();
    handle_steps(&mut store, steps, console)
}

/// The two backends are one language: what tasks come to depends on what
/// the store holds and on nothing else. So two stores, of whatever
/// backends, that hold the same nodes give the same result, the same error,
/// the same lines and the same output, and they hold the same nodes again
/// afterwards. All new stores hold the same, namely nothing.
pub proof fn lemma_backends_agree<A: CompilerContext, B: CompilerContext>(
    a: A,
    b: B,
    steps: TasksView,
)
    requires
        a.model() == b.model(),
    ensures
        handled(a.model(), steps) == handled(b.model(), steps),
{
}

} // verus!

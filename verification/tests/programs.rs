use steel::ast::Ast;
use steel::compiler_context::{CompilerContext, NodeStore, Store};
use steel::ecs::Ecs;
use steel::error::SteelErr;
use steel::gen_code::{generate_random_program, integer_sqrt, Spec};
use steel::nodes::{Call, Kind, Operator, Symbol};
use steel::optimizer::{apply, divide, optimize, Optimizations};
use steel::parser::program;
use steel::{eval_program, handle, handle_steps, Console, Tasks};

fn take_result<T: std::fmt::Debug>(program: &str, res: Result<T, SteelErr>) {
    match res {
        Ok(_) => {}
        Err(e) => {
            println!("Should be able to eval program:");
            println!("{}", program);
            panic!("error: {}", e.message());
        }
    }
}

const DEVIOUS_PROGRAM: &str = "0(putchar())";
const SIMPLE_PROGRAM: &str = "putchar(48+9)";
const MEDIUM_PROGRAM: &str = "putchar(65)+putchar(66)+putchar(67)+putchar(10)";

#[test]
fn cannot_handle_devious_program_ast() {
    let program = DEVIOUS_PROGRAM;
    take_result(
        program,
        handle::<Ast>(Tasks::all(program), &mut Console::new()),
    )
}

#[test]
fn can_handle_simple_program_ast() {
    let program = SIMPLE_PROGRAM;
    take_result(
        program,
        handle::<Ast>(Tasks::all(program), &mut Console::new()),
    )
}

#[test]
fn can_handle_medium_program_ast() {
    let program = MEDIUM_PROGRAM;
    take_result(
        program,
        handle::<Ast>(Tasks::all(program), &mut Console::new()),
    )
}

#[test]
fn cannot_handle_devious_program_ecs() {
    let program = DEVIOUS_PROGRAM;
    take_result(
        program,
        handle::<Ecs>(Tasks::all(program), &mut Console::new()),
    )
}

#[test]
fn can_handle_simple_program_ecs() {
    let program = SIMPLE_PROGRAM;
    take_result(
        program,
        handle::<Ecs>(Tasks::all(program), &mut Console::new()),
    )
}

#[test]
fn can_handle_medium_program_ecs() {
    let program = MEDIUM_PROGRAM;
    take_result(
        program,
        handle::<Ecs>(Tasks::all(program), &mut Console::new()),
    )
}

/// Runs everything on `input` and returns the two printed lines, the
/// value and what the program wrote.
fn run_all<C: CompilerContext>(input: &str) -> (Vec<String>, i64, String)
where
    SteelErr: From<C::E>,
{
    let mut console = Console::new();
    let (root, value) = handle::<C>(Tasks::all(input), &mut console).unwrap();
    assert!(root.is_some());
    (console.err, value, console.out)
}

fn scenario(input: &str, printed: &str, optimized: &str, value: i64, stdout: &str) {
    let lines = vec![format!(" {:?}", printed), format!(" {:?}", optimized)];
    assert_eq!(
        run_all::<Ast>(input),
        (lines.clone(), value, stdout.to_string())
    );
    assert_eq!(run_all::<Ecs>(input), (lines, value, stdout.to_string()));
}

#[test]
fn a_constant_is_its_own_value() {
    scenario("123", "123", "123", 123, "");
}

#[test]
fn a_sum_folds() {
    scenario("12+23", "12+23", "35", 35, "");
}

#[test]
fn a_product_and_a_sum_fold() {
    scenario("12*23+34", "(12*23)+34", "310", 310, "");
}

#[test]
fn parentheses_come_first() {
    scenario("(12+23)*34", "(12+23)*34", "1190", 1190, "");
}

#[test]
fn an_argument_folds_and_the_call_stays() {
    scenario("putchar(48+9)", "putchar((48+9))", "putchar(57)", 1, "9");
}

#[test]
fn what_writes_does_not_fold() {
    let text = "((putchar(65)+putchar(66))+putchar(67))+putchar(10)";
    scenario(
        "putchar(65)+putchar(66)+putchar(67)+putchar(10)",
        text,
        text,
        4,
        "ABC\n",
    );
}

#[test]
fn a_leading_minus_is_a_difference_from_zero() {
    scenario("-123\n", "0-123", "-123", -123, "");
}

#[test]
fn division_by_zero_is_zero() {
    scenario("1/0", "1/0", "0", 0, "");
    let mut console = Console::new();
    let (_, value) = handle::<Ast>(Tasks::parse("1/0").and_eval(), &mut console).unwrap();
    assert_eq!(value, 0);
    let (_, value) = handle::<Ecs>(Tasks::parse("7/(3-3)").and_eval(), &mut console).unwrap();
    assert_eq!(value, 0);
}

#[test]
fn nested_sums_fold_to_one_constant() {
    scenario(
        "(((((1+1)+1)+1)+1)+1)",
        "((((1+1)+1)+1)+1)+1",
        "6",
        6,
        "",
    );
}

#[test]
fn arithmetic_wraps_around() {
    assert_eq!(apply(Operator::Add, i64::MAX, 1), i64::MIN);
    assert_eq!(apply(Operator::Sub, i64::MIN, 1), i64::MAX);
    assert_eq!(apply(Operator::Mul, i64::MAX, 2), -2);
    assert_eq!(apply(Operator::Div, 7, 2), 3);
    assert_eq!(apply(Operator::Div, -7, 2), -3);
    assert_eq!(apply(Operator::Div, 7, -2), -3);
    assert_eq!(apply(Operator::Div, -7, -2), 3);
    assert_eq!(divide(i64::MIN, -1), i64::MIN);
    assert_eq!(divide(i64::MIN, 1), i64::MIN);
    assert_eq!(divide(5, 0), 0);
    scenario(
        "9223372036854775807+1",
        "9223372036854775807+1",
        "-9223372036854775808",
        i64::MIN,
        "",
    );
}

#[test]
fn nothing_to_do_is_no_program() {
    let mut console = Console::new();
    let mut store = Ast::new();
    let steps: Tasks<usize> = Tasks::default();
    assert_eq!(
        handle_steps(&mut store, steps, &mut console).unwrap(),
        (None, 0)
    );
    assert_eq!(store.node_count(), 0);
    assert!(console.err.is_empty() && console.out.is_empty());
}

#[test]
fn a_stored_program_can_be_taken_up_again() {
    let mut console = Console::new();
    let mut store = Ecs::new();
    let (root, value) = handle_steps(&mut store, Tasks::parse("2*(3+4)"), &mut console).unwrap();
    let root = root.unwrap();
    assert_eq!(value, 0);
    assert!(console.err.is_empty());
    assert_eq!(store.pretty(root), "2*(3+4)");
    let (again, value) = handle_steps(
        &mut store,
        Tasks::pre_parsed(root).and_print().and_eval(),
        &mut console,
    )
    .unwrap();
    assert_eq!(again, Some(root));
    assert_eq!(value, 14);
    // not optimized: the program is as it was
    assert_eq!(store.pretty(root), "2*(3+4)");
    let (_, value) = handle_steps(
        &mut store,
        Tasks::pre_parsed(root).and_optimize().and_print_optimized(),
        &mut console,
    )
    .unwrap();
    assert_eq!(value, 0);
    assert_eq!(store.pretty(root), "14");
    assert_eq!(console.err, vec![" \"2*(3+4)\"", " \"14\""]);
}

fn error_of<C: CompilerContext>(input: &str) -> (String, String)
where
    SteelErr: From<C::E>,
{
    let mut console = Console::new();
    match handle::<C>(Tasks::parse(input).and_eval(), &mut console) {
        Ok(r) => panic!("{:?} should fail, gave {:?}", input, r.1),
        Err(e) => (e.message(), console.out),
    }
}

fn fails_with(input: &str, message: &str, stdout: &str) {
    assert_eq!(
        error_of::<Ast>(input),
        (message.to_string(), stdout.to_string())
    );
    assert_eq!(
        error_of::<Ecs>(input),
        (message.to_string(), stdout.to_string())
    );
}

#[test]
fn what_does_not_evaluate() {
    fails_with("#lol", "Expected the end of the input, found \"#lol\"", "");
    fails_with("x", "Expected value for x", "");
    fails_with("1+x", "Expected value for x", "");
    // what was written before the error stays written
    fails_with("putchar(72)+y", "Expected value for y", "H");
    fails_with("(+)(1)", "Expected argument arg_1 for +", "");
    fails_with("*(a=1, b=2)", "Expected argument arg_0 for *", "");
    fails_with("putchar", "Expected an integer as the result, found \"putchar\"", "");
    fails_with("+", "Expected an integer as the result, found \"+\"", "");
}

#[test]
fn putchar_takes_characters_only() {
    let mut console = Console::new();
    let run = |input: &str, console: &mut Console| {
        handle::<Ast>(Tasks::parse(input).and_eval(), console)
            .unwrap()
            .1
    };
    assert_eq!(run("putchar(955)", &mut console), 1);
    assert_eq!(run("putchar(1114111)", &mut console), 1);
    assert_eq!(run("putchar(1114112)", &mut console), 0);
    assert_eq!(run("putchar(55296)", &mut console), 0);
    assert_eq!(run("putchar(0-1)", &mut console), 0);
    assert_eq!(run("putchar(4294967361)", &mut console), 0);
    assert_eq!(run("putchar()", &mut console), 0);
    assert_eq!(run("putchar(putchar)", &mut console), 0);
    assert_eq!(console.out, "\u{3bb}\u{10ffff}");
}

#[test]
fn a_value_that_is_no_function_is_its_own_result() {
    let mut console = Console::new();
    let (_, value) = handle::<Ecs>(Tasks::parse("7(1, 2)").and_eval(), &mut console).unwrap();
    assert_eq!(value, 7);
    // the arguments are evaluated first, in the order in which they stand
    let (_, value) = handle::<Ecs>(
        Tasks::parse("0(putchar(97), putchar(98), z=putchar(99))").and_eval(),
        &mut console,
    )
    .unwrap();
    assert_eq!(value, 0);
    assert_eq!(console.out, "abc");
}

#[test]
fn eval_program_reads_a_store_that_was_built_by_hand() {
    let mut store = Ast::new();
    let two = store.add(2i64);
    let five = store.add(5i64);
    let times = store.add(Symbol::operator("*"));
    let call = store.add(Call::new(
        times,
        vec![("arg_0".to_string(), two), ("arg_1".to_string(), five)],
    ));
    assert_eq!(store.pretty(call), "2*5");
    let mut console = Console::new();
    assert_eq!(
        eval_program(&mut store, call, "2*5", &mut console).ok(),
        Some(10)
    );
    // a node that is not there
    let message = eval_program(&mut store, 17, "?", &mut console)
        .unwrap_err()
        .message();
    assert_eq!(message, "Expected a node, found \"({node? 17})\"");
}

#[test]
fn the_optimizer_folds_only_what_it_was_asked_to() {
    let mut store = Ast::new();
    let (_, root) = program(&mut store, "f(1+2, 3*(4-5))").unwrap();
    let before = store.pretty(root);
    assert_eq!(
        optimize(&mut store, &Optimizations::none(), root).ok(),
        Some(root)
    );
    assert_eq!(store.pretty(root), before);
    assert_eq!(
        optimize(&mut store, &Optimizations::none().all(), root).ok(),
        Some(root)
    );
    assert_eq!(store.pretty(root), "f(3, (-3))");
    assert_eq!(store.ids_of(Kind::Call), vec![root]);
    // a second run finds nothing to do
    assert_eq!(
        optimize(&mut store, &Optimizations::none().and_constant_folding(), root).ok(),
        Some(root)
    );
    assert_eq!(store.pretty(root), "f(3, (-3))");
}

#[test]
fn both_stores_tell_the_same_story() {
    let inputs = [
        "1+2*3-4/5",
        "f(x)",
        "putchar(33)*putchar(34)",
        "a(b(c(1), d=2), +)",
        "-(-(-3))",
        "(1)(2)(3)",
        "arg_0(5)",
        "1/(2-2)+putchar(48)",
        "((",
        "1 1",
    ];
    for input in inputs {
        let mut ast_console = Console::new();
        let mut ecs_console = Console::new();
        let ast = handle::<Ast>(Tasks::all(input), &mut ast_console);
        let ecs = handle::<Ecs>(Tasks::all(input), &mut ecs_console);
        match (ast, ecs) {
            (Ok((_, a)), Ok((_, b))) => assert_eq!(a, b, "{}", input),
            (Err(a), Err(b)) => assert_eq!(a.message(), b.message(), "{}", input),
            (a, b) => panic!("{}: {:?} against {:?}", input, a.is_ok(), b.is_ok()),
        }
        assert_eq!(ast_console.err, ecs_console.err, "{}", input);
        assert_eq!(ast_console.out, ecs_console.out, "{}", input);
    }
}

#[test]
fn square_roots_round_down() {
    assert_eq!(integer_sqrt(0), 0);
    assert_eq!(integer_sqrt(1), 1);
    assert_eq!(integer_sqrt(3), 1);
    assert_eq!(integer_sqrt(4), 2);
    assert_eq!(integer_sqrt(99), 9);
    assert_eq!(integer_sqrt(100), 10);
    assert_eq!(integer_sqrt(1_000_000), 1000);
}

#[test]
fn a_symbol_is_in_scope_where_its_name_and_its_needs_are() {
    let context = Spec::symbol("main")
        .add_symbol(Spec::symbol("x"))
        .add_symbol(Spec::symbol("arg_0"));
    assert!(Spec::symbol("x").is_in_scope(&context));
    assert!(!Spec::symbol("y").is_in_scope(&context));
    let putchar = Spec::symbol("putchar").add_symbol(Spec::symbol("arg_0"));
    assert!(!putchar.is_in_scope(&context));
    let context = context.add_symbol(Spec::symbol("putchar"));
    assert!(putchar.is_in_scope(&context));
    let plus = Spec::operator("+", 2);
    assert!(!plus.is_in_scope(&context.add_symbol(Spec::symbol("+"))));
    assert_eq!(Spec::default().size, Some(100));
    assert_eq!(Spec::default().sized(7).named("it".to_string()).name(), "it");
}

/// Every reference of a generated program is to a node that was made
/// before, and the program prints as text that parses again.
fn generated_programs_hold_together<C: CompilerContext>(size: usize, runs: usize)
where
    SteelErr: From<C::E>,
{
    let mut rng = rand::thread_rng();
    for _ in 0..runs {
        let spec = Spec::default().sized(size);
        let mut store = C::new();
        let root = generate_random_program("generator", &mut store, &spec, &mut rng);
        let count = store.node_count();
        assert!(count >= 1);
        let ids = [
            store.ids_of(Kind::I64),
            store.ids_of(Kind::Operator),
            store.ids_of(Kind::Symbol),
            store.ids_of(Kind::Call),
        ];
        assert_eq!(ids.iter().map(|k| k.len()).sum::<usize>(), count);
        let text = store.pretty(root);
        // both stores read the text alike, whatever it evaluates to
        let mut ast_console = Console::new();
        let mut ecs_console = Console::new();
        let ast = handle::<Ast>(Tasks::parse(&text).and_eval(), &mut ast_console);
        let ecs = handle::<Ecs>(Tasks::parse(&text).and_eval(), &mut ecs_console);
        match (ast, ecs) {
            (Ok((_, a)), Ok((_, b))) => assert_eq!(a, b, "{}", text),
            (Err(a), Err(b)) => assert_eq!(a.message(), b.message(), "{}", text),
            (a, b) => panic!("{}: {:?} against {:?}", text, a.is_ok(), b.is_ok()),
        }
        assert_eq!(ast_console.out, ecs_console.out);
        // what the parser has read and the printer has printed reads and
        // prints the same again
        let mut first = Ast::new();
        let (rest, read) = program(&mut first, &text).unwrap();
        assert_eq!(rest, "");
        let printed = first.pretty(read);
        let mut second = Ast::new();
        let (rest, reread) = program(&mut second, &printed).unwrap();
        assert_eq!(rest, "");
        assert_eq!(second.pretty(reread), printed);
    }
}

#[test]
fn generated_programs_hold_together_in_the_tree_store() {
    for size in 1..40 {
        generated_programs_hold_together::<Ast>(size, 10);
    }
    generated_programs_hold_together::<Ast>(1000, 2);
}

#[test]
fn generated_programs_hold_together_in_the_component_store() {
    for size in 1..40 {
        generated_programs_hold_together::<Ecs>(size, 10);
    }
    generated_programs_hold_together::<Ecs>(1000, 2);
}

#[test]
fn optimizing_keeps_the_value_and_the_output() {
    let inputs = [
        "123",
        "12+23",
        "12*23+34",
        "(12+23)*34",
        "putchar(48+9)",
        "putchar(65)+putchar(66)+putchar(67)+putchar(10)",
        "-123",
        "1/0",
        "(((((1+1)+1)+1)+1)+1)",
        "putchar(100/(5-5)+72)*(0-9223372036854775807-2)",
        "7(putchar(40+2), x=putchar(2*21+1))",
    ];
    for input in inputs {
        let mut plain = Console::new();
        let mut folded = Console::new();
        let a = handle::<Ast>(Tasks::parse(input).and_eval(), &mut plain).unwrap();
        let b = handle::<Ecs>(
            Tasks::parse(input).and_optimize().and_eval(),
            &mut folded,
        )
        .unwrap();
        assert_eq!(a.1, b.1, "{}", input);
        assert_eq!(plain.out, folded.out, "{}", input);
    }
}

#[test]
fn optimizing_twice_is_optimizing_once() {
    for input in ["f(1+2*3, (4-5)/0, g(6*7)+x)", "1+2+3+4", "a(b)", "9/(1-1)"] {
        let mut store = Ecs::new();
        let (_, root) = program(&mut store, input).unwrap();
        let all = Optimizations::none().all();
        assert_eq!(optimize(&mut store, &all, root).ok(), Some(root));
        let once = store.pretty(root);
        let calls = store.ids_of(Kind::Call);
        let numbers = store.ids_of(Kind::I64).len();
        assert_eq!(store.optimize(&all, root).ok(), Some(root));
        assert_eq!(store.pretty(root), once);
        assert_eq!(store.ids_of(Kind::Call), calls);
        assert_eq!(store.ids_of(Kind::I64).len(), numbers);
    }
}

#[test]
fn an_error_of_a_store_reads_as_it_prints() {
    let mut ast = Ast::new();
    let name = ast.add(Symbol::new("n"));
    let wrong = ast.get_call(name).unwrap_err();
    let shown = format!("{:?}", wrong);
    assert_eq!(shown, "NodeOfWrongKindError(0, \"Call\")");
    assert_eq!(SteelErr::from(wrong).message(), shown);
    let out = ast.get_call(5).unwrap_err();
    let shown = format!("{:?}", out);
    assert_eq!(shown, "InternalError(IndexOutOfBounds(5, 1))");
    assert_eq!(SteelErr::from(out).message(), shown);
    let gone: Result<Option<Symbol>, _> = ast.remove(name);
    assert!(gone.is_ok());
    let empty = ast.get_symbol(name).unwrap_err();
    let shown = format!("{:?}", empty);
    assert_eq!(shown, "InternalError(IndexEmpty(\"steel::ast::node::Node\", 0))");
    assert_eq!(SteelErr::from(empty).message(), shown);

    let mut ecs = Ecs::new();
    let name = ecs.add(Symbol::new("n"));
    let wrong = ecs.get_i64(name).unwrap_err();
    let shown = format!("{:?}", wrong);
    assert_eq!(
        shown,
        "ComponentNotFound(\"i64\", TypedIndex { id: 0, ty: PhantomData<steel::ecs::component::Entity> })"
    );
    assert_eq!(SteelErr::from(wrong).message(), shown);
    let out = ecs.get_operator(steel::typed_index::TypedIndex::new(3)).unwrap_err();
    let shown = format!("{:?}", out);
    assert_eq!(shown, "InternalError(IndexOutOfBounds(3, 1))");
    assert_eq!(SteelErr::from(out).message(), shown);
    let gone: Result<Option<Symbol>, _> = ecs.remove(name);
    assert!(gone.is_ok());
    let empty = ecs.get_symbol(name).unwrap_err();
    let shown = format!("{:?}", empty);
    assert_eq!(shown, "InternalError(IndexEmpty(\"steel::nodes::Symbol\", 0))");
    assert_eq!(SteelErr::from(empty).message(), shown);
}

#[test]
fn every_error_has_its_line() {
    let texts = [
        (
            SteelErr::PrecedenceError { precendence: -3 },
            "Unexpected operator due to max precendence setting (-3)",
        ),
        (
            SteelErr::UnexpectedEndOfInput,
            "Expected an expression, found nothing",
        ),
        (
            SteelErr::ReliedOnUninitializedMemory(12),
            "Relied on uninitialized memory 12",
        ),
        (
            SteelErr::ReliedOnOutOfBoundsMemory(0),
            "Relied on out of bouds memory 0",
        ),
        (
            SteelErr::MissingArgumentExpectedByExtern("+".to_string(), "arg_0".to_string()),
            "Expected argument arg_0 for +",
        ),
        (
            SteelErr::MissingValueForBinding("x".to_string()),
            "Expected value for x",
        ),
        (
            SteelErr::MalformedExpression("a \"b\"\n".to_string(), "c".to_string()),
            "Expected c, found \"a \\\"b\\\"\\n\"",
        ),
        (
            SteelErr::Multi(
                Box::new(SteelErr::UnexpectedEndOfInput),
                Box::new(SteelErr::ErrorExpected(
                    Box::new(SteelErr::MissingValueForBinding("y".to_string())),
                    "z".to_string(),
                )),
            ),
            "Expected an expression, found nothing\nand Expected value for y expected z",
        ),
    ];
    for (error, text) in texts {
        assert_eq!(error.message(), text);
    }
}

use steel::ast::Ast;
use steel::compiler_context::{CompilerContext, Store};
use steel::ecs::Ecs;
use steel::error::SteelErr;
use steel::nodes::{Operator, Symbol};
use steel::parser::{
    binding, expr, number_i64, number_i64_raw, operator, operator_raw, program, symbol,
    symbol_raw, INIT_PRECENDENCE, MUL_PRECENDENCE, PLUS_PRECENDENCE,
};

/// What the parser's error looks like to the user of a failed parse.
fn parsing_error<T: std::fmt::Debug>(res: Result<T, SteelErr>) -> String {
    match res {
        Ok(v) => panic!("Expected error found: Ok({:?})", v),
        Err(e) => format!("Parsing Error: {}", e.message()),
    }
}

#[test]
fn parse_symbol() {
    assert_eq!(symbol_raw("hello").unwrap(), ("", Symbol::new("hello")));
}

#[test]
fn parse_symbol_with_underscores() {
    assert_eq!(symbol_raw("he_llo").unwrap(), ("", Symbol::new("he_llo")));
    assert_eq!(symbol_raw("_e_llo").unwrap(), ("", Symbol::new("_e_llo")));
}

#[test]
fn parse_non_symbol() {
    assert_eq!(
        parsing_error(symbol_raw("#lol")),
        "Parsing Error: Failed in Alt while parsing #lol\nand Failed in Tag while parsing #lol expected _"
    );
    assert_eq!(
        parsing_error(symbol_raw("123")),
        "Parsing Error: Failed in Alt while parsing 123\nand Failed in Tag while parsing 123 expected _"
    );
}

#[test]
fn parse_operator() {
    let mut prec = INIT_PRECENDENCE;
    assert_eq!(operator_raw("+", &mut prec).unwrap(), ("", Operator::Add));
    let mut prec = MUL_PRECENDENCE;
    assert_eq!(operator_raw("*", &mut prec).unwrap(), ("", Operator::Mul));
    let mut prec = PLUS_PRECENDENCE;
    assert_eq!(operator_raw("*", &mut prec).unwrap(), ("", Operator::Mul));
    let mut prec = INIT_PRECENDENCE;
    assert_eq!(operator_raw("*", &mut prec).unwrap(), ("", Operator::Mul));
}

#[test]
fn parse_operator_in_wrong_precendence() {
    let mut prec = MUL_PRECENDENCE;
    assert_eq!(
        parsing_error(operator_raw("+", &mut prec)),
        format!(
            "Parsing Error: Unexpected operator due to max precendence setting ({})",
            PLUS_PRECENDENCE
        ),
    );
}

#[test]
fn parse_non_operator() {
    let mut prec = INIT_PRECENDENCE;
    assert_eq!(
        parsing_error(operator_raw("#lol", &mut prec)),
        "Parsing Error: Expected operator, found \"#lol\""
    );
    let mut prec = INIT_PRECENDENCE;
    assert_eq!(
        parsing_error(operator_raw("123", &mut prec)),
        "Parsing Error: Expected operator, found \"123\""
    );
}

#[test]
fn parse_number_i64() {
    assert_eq!(number_i64_raw("123").unwrap(), ("", 123i64));
    assert_eq!(number_i64_raw("-0").unwrap(), ("", 0i64));
    assert_eq!(number_i64_raw("-1").unwrap(), ("", -1i64));
}

#[test]
fn parse_non_number_i64() {
    assert_eq!(
        parsing_error(number_i64_raw("#lol")),
        "Parsing Error: Failed in TakeWhile1 while parsing #lol"
    );
    assert_eq!(
        parsing_error(number_i64_raw("||")),
        "Parsing Error: Failed in TakeWhile1 while parsing ||"
    );
    assert_eq!(
        parsing_error(number_i64_raw("e2")),
        "Parsing Error: Failed in TakeWhile1 while parsing e2"
    );
}

#[test]
fn numbers_at_the_edge_of_64_bits() {
    assert_eq!(
        number_i64_raw("9223372036854775807").unwrap(),
        ("", i64::MAX)
    );
    assert_eq!(
        number_i64_raw("-9223372036854775807 rest").unwrap(),
        (" rest", -i64::MAX)
    );
    assert_eq!(number_i64_raw("  +42;").unwrap(), (";", 42));
    assert_eq!(
        number_i64_raw("9223372036854775808x").unwrap_err().message(),
        "Failed to parse int due to ParseIntError { kind: PosOverflow } in 9223372036854775808x"
    );
    assert_eq!(
        number_i64_raw("-99999999999999999999").unwrap_err().message(),
        "Failed to parse int due to ParseIntError { kind: PosOverflow } in 99999999999999999999"
    );
}

#[test]
fn the_small_parsers_leave_the_rest() {
    let mut ctx = Ast::new();
    assert_eq!(symbol(&mut ctx, "  foo(1)").unwrap(), ("(1)", 0));
    assert_eq!(ctx.get_symbol(0).ok(), Some(&Symbol::new("foo")));
    assert_eq!(number_i64(&mut ctx, "12+3").unwrap(), ("+3", 1));
    assert_eq!(ctx.get_i64(1).ok(), Some(&12));
    let mut prec = INIT_PRECENDENCE;
    assert_eq!(operator(&mut ctx, "/2", &mut prec).unwrap(), ("2", 2));
    assert_eq!(prec, MUL_PRECENDENCE);
    assert_eq!(ctx.get_operator(2).ok(), Some(&Operator::Div));
    assert_eq!(
        binding(&mut ctx, " name = 3").unwrap(),
        (" 3", "name".to_string())
    );
    assert_eq!(
        binding(&mut ctx, "name 3").unwrap_err().message(),
        "Failed in Tag while parsing 3 expected ="
    );
    assert_eq!(ctx.node_count(), 3);
    let mut floor = PLUS_PRECENDENCE + 1;
    // with the floor above `+`, the expression ends before it
    assert_eq!(expr(&mut ctx, "2*3+4", &mut floor).unwrap().0, "+4");
    assert_eq!(floor, PLUS_PRECENDENCE + 1);
}

struct Case {
    txt: &'static str,
    no_round_trip: bool,
    prints_as: Option<&'static str>,
    error_is: Option<&'static str>,
}

fn case(txt: &'static str) -> Case {
    Case { txt, no_round_trip: false, prints_as: None, error_is: None }
}

impl Case {
    fn no_round_trip(mut self) -> Self {
        self.no_round_trip = true;
        self
    }
    fn error_is(mut self, error_is: &'static str) -> Self {
        self.error_is = Some(error_is);
        self
    }
    fn prints_as(mut self, prints_as: &'static str) -> Self {
        self.prints_as = Some(prints_as);
        self
    }
}

fn run_test<T: CompilerContext>(name: &str, case: &Case, mut ctx: T) {
    let txt = case.txt;
    let (left_over, result) = match program(&mut ctx, txt) {
        Ok((left_over, result)) => (left_over, result),
        Err(e) => {
            if let Some(error_is) = case.error_is {
                assert_eq!(error_is, e.message());
                return;
            } else {
                panic!("{} failed on {:?}: {}", name, txt, e.message());
            }
        }
    };
    assert!(case.error_is.is_none(), "Expected an error");
    assert_eq!(left_over, "", "Expected to parse full input");
    assert!(ctx.get_call(result).is_ok());
    let pretty = ctx.pretty(result);
    if let Some(prints_as) = case.prints_as {
        assert_eq!(&pretty, prints_as, "Is expected to print as");
    } else if !case.no_round_trip {
        assert_eq!(&pretty, txt, "Is expected to round trip");
    }
    assert!(ctx.mem_usage() >= ctx.active_mem_usage());
}

fn parser_test(case: Case) {
    run_test("Ast", &case, Ast::new());
    run_test("Ecs", &case, Ecs::new());
}

#[test]
fn handle_white_space() {
    parser_test(case("-123\n").prints_as("0-123"));
}

#[test]
fn handle_malformed_with_white_space() {
    parser_test(case("#lol\n").error_is("Expected the end of the input, found \"#lol\""));
}

#[test]
fn simple_plus() {
    parser_test(case("12+23"));
}

#[test]
fn simple_plus_with_trailing() {
    parser_test(case("12+23"));
}

#[test]
fn unary_in_parens() {
    parser_test(case("*(12)").no_round_trip());
}

#[test]
fn unary_no_parens() {
    parser_test(case("*12").no_round_trip());
}

#[test]
fn func_call() {
    parser_test(case("foo(12, a)"));
}

#[test]
fn op_call() {
    parser_test(case("+(12, 23)").prints_as("12+23"));
}

#[test]
fn multi_op() {
    parser_test(case("(12+23+34)").no_round_trip());
}

#[test]
fn prec_mul_add() {
    parser_test(case("12*23+34").prints_as("(12*23)+34"));
}

#[test]
fn prec_add_mul() {
    parser_test(case("12+23*34").prints_as("12+(23*34)"));
}

#[test]
fn prec_mul_paren_add() {
    parser_test(case("12*(23+34)").prints_as("12*(23+34)"));
}

#[test]
fn prec_paren_add_mul() {
    parser_test(case("(12+23)*34").prints_as("(12+23)*34"));
}

#[test]
fn prec_hard_case2() {
    parser_test(case("a+b*c+d").prints_as("(a+(b*c))+d"));
}

#[test]
fn operators_of_one_precedence_group_to_the_left() {
    parser_test(case("a+b+c").prints_as("(a+b)+c"));
    parser_test(case("a-b-c").prints_as("(a-b)-c"));
    parser_test(case("a/b*c").prints_as("(a/b)*c"));
    parser_test(case("(12+23+34)").prints_as("(12+23)+34"));
    parser_test(case("f(a+b+c)").prints_as("f(((a+b)+c))"));
}

#[test]
fn whitespace_may_stand_between_tokens() {
    parser_test(case(" 1 + 2 ").prints_as("1+2"));
    parser_test(case("( 1 + 2 ) * 3").prints_as("(1+2)*3"));
    parser_test(case("foo ( 1 ,\n x = 2 )").prints_as("foo(1, x=2)"));
    parser_test(case("- 5").prints_as("0-5"));
}

#[test]
fn named_arguments_do_not_count_as_positional() {
    let mut ctx = Ast::new();
    let (_, root) = program(&mut ctx, "f(1, x=2, 3)").unwrap();
    let call = ctx.get_call(root).unwrap();
    let names: Vec<&str> = call.args.iter().map(|(name, _)| name.as_str()).collect();
    assert_eq!(names, vec!["arg_0", "x", "arg_1"]);
    assert_eq!(ctx.pretty(root), "f(1, x=2, 3)");
}

#[test]
fn what_does_not_parse() {
    parser_test(case("").error_is("Expected an expression, found nothing"));
    parser_test(case("   ").error_is("Expected an expression, found nothing"));
    parser_test(case("1 2").error_is("Expected operator, found \"2\""));
    parser_test(case("(1+2").error_is("Failed in Tag while parsing  expected )"));
    parser_test(case("1+").error_is("Expected an expression, found nothing"));
    parser_test(case("1+#\nmore").error_is("Expected the end of the input, found \"#\""));
    parser_test(case("f(1,)").error_is("Expected operator, found \"(1,)\""));
}

#[test]
fn a_prefix_operator_takes_zero_on_its_left() {
    let mut ctx = Ecs::new();
    let (_, root) = program(&mut ctx, "-123").unwrap();
    let call = ctx.get_call(root).unwrap();
    let (left, right) = (call.left.unwrap(), call.right.unwrap());
    assert_eq!(ctx.get_operator(call.callee).ok(), Some(&Operator::Sub));
    assert_eq!(ctx.get_i64(left).ok(), Some(&0));
    assert_eq!(ctx.get_i64(right).ok(), Some(&123));
}

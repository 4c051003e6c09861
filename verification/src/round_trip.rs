use crate::compiler_context::Model;
use crate::error::ErrView;
use crate::nodes::{call_node, is_operator_name, NodeView, Operator};
use crate::parser::{
    after_adding, digits_value, has_at, in_class, is_alpha, is_digit, is_identifier_tail,
    is_space, operator_of, p_args, p_expr, p_item, p_led, p_list, p_nud, p_program, p_rest,
    p_symbol, p_tail, precedence_of, run_end, spec_binding, spec_identifier, spec_number,
    spec_operator, spec_tag, Class, Parsed, Precedence, INIT_PRECENDENCE, MIN_PRECENDENCE,
};
use crate::pretty_printer::{
    as_operand, in_parentheses, joined, piece, positional_name, printed, printed_args, Printed,
    PrintedArgs,
};
use crate::text::{integer_text, natural_text};
use vstd::prelude::*;

verus! {

/// A program as a tree, without the store that holds it: a constant, a
/// symbol, an operator between two operands, or a call of a callee on
/// arguments that are given by position.
pub enum Tree {
    Int(i64),
    Sym(Seq<char>),
    Bin(Operator, Box<Tree>, Box<Tree>),
    App(Box<Tree>, Seq<Tree>),
}

/// Whether `name` is an identifier: a letter or an underscore, then
/// letters, digits and underscores.
pub open spec fn is_name(name: Seq<char>) -> bool {
    &&& name.len() > 0
    &&& is_alpha(name[0]) || name[0] == '_'
    &&& forall|i: int| 0 <= i < name.len() ==> is_identifier_tail(#[trigger] name[i])
}

/// Whether the program is one that reads as it prints: its constants are
/// not negative and its symbols are identifiers.
pub open spec fn readable(t: Tree) -> bool
    decreases t,
{
    match t {
        Tree::Int(v) => v >= 0,
        Tree::Sym(name) => is_name(name),
        Tree::Bin(op, a, b) => readable(*a) && readable(*b),
        Tree::App(callee, args) => readable(*callee) && forall|i: int|
            0 <= i < args.len() ==> readable(#[trigger] args[i]),
    }
}

/// The program as source text.
pub open spec fn text(t: Tree) -> Seq<char>
    decreases t, 0nat,
{
    match t {
        Tree::Int(v) => natural_text(v as nat),
        Tree::Sym(name) => name,
        Tree::Bin(op, a, b) => (if *a is Bin {
            in_parentheses(text(*a))
        } else {
            text(*a)
        }) + seq![op.token_char()] + (if *b is Bin {
            in_parentheses(text(*b))
        } else {
            text(*b)
        }),
        Tree::App(callee, args) => (if *callee is Bin {
            in_parentheses(text(*callee))
        } else {
            text(*callee)
        }) + seq!['('] + args_text(args, 0) + seq![')'],
    }
}

/// The arguments from number `from` on as source text, with a comma and a
/// space between each two.
pub open spec fn args_text(args: Seq<Tree>, from: nat) -> Seq<char>
    decreases args, args.len() - from,
{
    if from >= args.len() {
        Seq::empty()
    } else {
        (if args[from as int] is Bin {
            in_parentheses(text(args[from as int]))
        } else {
            text(args[from as int])
        }) + (if from + 1 < args.len() {
            seq![',', ' '] + args_text(args, from + 1)
        } else {
            Seq::empty()
        })
    }
}

/// The program as it stands where it is an operand: in parentheses where
/// it is an operator between two operands.
pub open spec fn operand(t: Tree) -> Seq<char> {
    if t is Bin {
        in_parentheses(text(t))
    } else {
        text(t)
    }
}

/// The nodes of a program in a store, and the slot of its root.
pub struct Built {
    pub nodes: Model,
    pub root: nat,
}

/// The nodes that the parser makes of the program, in the order in which it
/// makes them, for a store that holds `base` nodes already.
pub open spec fn build(t: Tree, base: nat) -> Built
    decreases t, 0nat,
{
    match t {
        Tree::Int(v) => Built { nodes: seq![Some(NodeView::I64(v))], root: base },
        Tree::Sym(name) => Built { nodes: seq![Some(NodeView::Symbol(name))], root: base },
        Tree::Bin(op, a, b) => {
            let left = build(*a, base);
            let operator = base + left.nodes.len();
            let right = build(*b, operator + 1);
            Built {
                nodes: left.nodes + seq![Some(NodeView::Operator(op))] + right.nodes + seq![
                    Some(
                        call_node(operator, seq![("arg_0"@, left.root), ("arg_1"@, right.root)]),
                    ),
                ],
                root: operator + 1 + right.nodes.len(),
            }
        },
        Tree::App(callee, args) => {
            let head = build(*callee, base);
            let rest = build_list(args, 0, base + head.nodes.len());
            Built {
                nodes: head.nodes + rest.nodes + seq![Some(call_node(head.root, rest.items))],
                root: base + head.nodes.len() + rest.nodes.len(),
            }
        },
    }
}

/// The nodes of a list of arguments, and the bindings of the arguments.
pub struct BuiltList {
    pub nodes: Model,
    pub items: Seq<(Seq<char>, nat)>,
}

/// The nodes that the parser makes of the arguments from number `from` on.
pub open spec fn build_list(args: Seq<Tree>, from: nat, base: nat) -> BuiltList
    decreases args, args.len() - from,
{
    if from >= args.len() {
        BuiltList { nodes: Seq::empty(), items: Seq::empty() }
    } else {
        let first = build(args[from as int], base);
        let rest = build_list(args, from + 1, base + first.nodes.len());
        BuiltList {
            nodes: first.nodes + rest.nodes,
            items: seq![(positional_name(from), first.root)] + rest.items,
        }
    }
}

/// A list of arguments has one binding for each argument.
pub proof fn lemma_build_list_len(args: Seq<Tree>, from: nat, base: nat)
    requires
        from <= args.len(),
    ensures
        build_list(args, from, base).items.len() == args.len() - from,
    decreases args.len() - from,
{
    if from < args.len() {
        lemma_build_list_len(args, from + 1, base + build(args[from as int], base).nodes.len());
    }
}

/// A program takes at least one node, and its root is the last of them.
pub proof fn lemma_build_root(t: Tree, base: nat)
    ensures
        build(t, base).nodes.len() > 0,
        build(t, base).root == base + build(t, base).nodes.len() - 1,
    decreases t,
{
    match t {
        Tree::Bin(op, a, b) => {
            lemma_build_root(*a, base);
            lemma_build_root(*b, base + build(*a, base).nodes.len() + 1);
        },
        Tree::App(callee, args) => {
            lemma_build_root(*callee, base);
        },
        _ => {},
    }
}

/// Whether the store `m` holds the nodes `nodes` from slot `base` on.
pub open spec fn holds(m: Model, base: nat, nodes: Model) -> bool {
    base + nodes.len() <= m.len() && m.subrange(base as int, (base + nodes.len()) as int) == nodes
}

proof fn lemma_holds_parts(m: Model, base: nat, a: Model, b: Model)
    requires
        holds(m, base, a + b),
    ensures
        holds(m, base, a),
        holds(m, base + a.len(), b),
{
    assert(m.subrange(base as int, (base + a.len()) as int) =~= (a + b).subrange(0, a.len() as int));
    assert((a + b).subrange(0, a.len() as int) =~= a);
    assert(m.subrange((base + a.len()) as int, (base + a.len() + b.len()) as int) =~= (a + b).subrange(
        a.len() as int,
        (a + b).len() as int,
    ));
    assert((a + b).subrange(a.len() as int, (a + b).len() as int) =~= b);
}

proof fn lemma_holds_at(m: Model, base: nat, nodes: Model, i: int)
    requires
        holds(m, base, nodes),
        0 <= i < nodes.len(),
    ensures
        m[(base + i) as int] == nodes[i],
{
    assert(m.subrange(base as int, (base + nodes.len()) as int)[i] == m[(base + i) as int]);
}

/// The names of the first two positional arguments.
pub proof fn lemma_positional_names()
    ensures
        positional_name(0) == "arg_0"@,
        positional_name(1) == "arg_1"@,
        "arg_0"@ != "arg_1"@,
{
    reveal_strlit("arg_");
    reveal_strlit("arg_0");
    reveal_strlit("arg_1");
    assert(positional_name(0) =~= "arg_0"@);
    assert(positional_name(1) =~= "arg_1"@);
    assert("arg_0"@[4] != "arg_1"@[4]);
}

/// What the printer makes of a tree: its text, in parentheses as an
/// operand where the tree is an operator between two operands.
pub open spec fn printed_tree(t: Tree) -> Printed {
    piece(text(t), t is Bin, false)
}

/// The operands from number `from` on, each as it prints.
pub open spec fn operands(args: Seq<Tree>, from: nat) -> Seq<Seq<char>> {
    Seq::new((args.len() - from) as nat, |i: int| operand(args[from + i]))
}

/// The printed arguments with a comma and a space between each two are the
/// text of the arguments.
pub proof fn lemma_joined(args: Seq<Tree>, from: nat)
    requires
        from <= args.len(),
    ensures
        joined(operands(args, from), ", "@) == args_text(args, from),
    decreases args.len() - from,
{
    reveal_strlit(", ");
    let parts = operands(args, from);
    if from >= args.len() {
    } else if from + 1 == args.len() {
        assert(parts[0] == operand(args[from as int]));
        assert(args_text(args, from) =~= operand(args[from as int]));
    } else {
        lemma_joined(args, from + 1);
        lemma_joined_front(parts, ", "@);
        assert(parts.skip(1) =~= operands(args, from + 1));
        assert(", "@ =~= seq![',', ' ']);
        assert(args_text(args, from) =~= parts[0] + ", "@ + args_text(args, from + 1));
    }
}

/// Joining can be done from the front as well as from the back.
pub proof fn lemma_joined_front(parts: Seq<Seq<char>>, sep: Seq<char>)
    requires
        parts.len() >= 2,
    ensures
        joined(parts, sep) == parts[0] + sep + joined(parts.skip(1), sep),
    decreases parts.len(),
{
    if parts.len() == 2 {
        assert(parts.drop_last() =~= seq![parts[0]]);
        assert(parts.skip(1) =~= seq![parts[1]]);
        assert(joined(parts.drop_last(), sep) == parts[0]);
        assert(joined(parts.skip(1), sep) == parts[1]);
        assert(joined(parts, sep) =~= parts[0] + sep + parts[1]);
    } else {
        lemma_joined_front(parts.drop_last(), sep);
        assert(parts.drop_last().skip(1) =~= parts.skip(1).drop_last());
        assert(parts.skip(1).last() == parts.last());
        assert(joined(parts, sep) =~= parts[0] + sep + joined(parts.skip(1), sep));
    }
}

/// A run of characters of a class ends where the class ends.
pub proof fn lemma_run(s: Seq<char>, pos: int, end: int, class: Class)
    requires
        0 <= pos <= end <= s.len(),
        forall|k: int| pos <= k < end ==> in_class(class, #[trigger] s[k]),
        end == s.len() || !in_class(class, s[end]),
    ensures
        run_end(s, pos, class) == end,
    decreases end - pos,
{
    if pos < end {
        lemma_run(s, pos + 1, end, class);
    }
}

/// A text that stands somewhere stands there character by character.
pub proof fn lemma_has_at(s: Seq<char>, pos: int, x: Seq<char>)
    requires
        has_at(s, pos, x),
    ensures
        forall|i: int| 0 <= i < x.len() ==> s[pos + i] == #[trigger] x[i],
{
    assert forall|i: int| 0 <= i < x.len() implies s[pos + i] == #[trigger] x[i] by {
        assert(s.subrange(pos, pos + x.len())[i] == s[pos + i]);
    }
}

/// Two texts stand one after the other where the two as one stand.
pub proof fn lemma_has_at_split(s: Seq<char>, pos: int, a: Seq<char>, b: Seq<char>)
    requires
        0 <= pos,
    ensures
        has_at(s, pos, a + b) <==> has_at(s, pos, a) && has_at(s, pos + a.len(), b),
{
    if has_at(s, pos, a + b) {
        lemma_has_at(s, pos, a + b);
        assert(s.subrange(pos, pos + a.len()) =~= a) by {
            assert forall|i: int| 0 <= i < a.len() implies s.subrange(pos, pos + a.len())[i]
                == a[i] by {
                assert((a + b)[i] == a[i]);
            }
        }
        assert(s.subrange(pos + a.len(), pos + a.len() + b.len()) =~= b) by {
            assert forall|i: int| 0 <= i < b.len() implies s.subrange(
                pos + a.len(),
                pos + a.len() + b.len(),
            )[i] == b[i] by {
                assert((a + b)[a.len() + i] == b[i]);
            }
        }
    }
    if has_at(s, pos, a) && has_at(s, pos + a.len(), b) {
        lemma_has_at(s, pos, a);
        lemma_has_at(s, pos + a.len(), b);
        assert(s.subrange(pos, pos + (a + b).len()) =~= a + b);
    }
}

/// A single character stands where it is.
pub proof fn lemma_has_at_one(s: Seq<char>, pos: int, c: char)
    requires
        0 <= pos,
    ensures
        has_at(s, pos, seq![c]) <==> pos < s.len() && s[pos] == c,
{
    if pos < s.len() && s[pos] == c {
        assert(s.subrange(pos, pos + 1) =~= seq![c]);
    }
    if has_at(s, pos, seq![c]) {
        assert(s.subrange(pos, pos + 1)[0] == s[pos]);
    }
}

/// The digits of a number are digits, and there is at least one.
pub proof fn lemma_natural_digits(n: nat)
    ensures
        natural_text(n).len() >= 1,
        forall|i: int| 0 <= i < natural_text(n).len() ==> is_digit(#[trigger] natural_text(n)[i]),
    decreases n,
{
    if n >= 10 {
        lemma_natural_digits(n / 10);
    }
}

/// The digits of a number stand for the number.
pub proof fn lemma_natural_value(s: Seq<char>, pos: int, n: nat)
    requires
        0 <= pos,
        has_at(s, pos, natural_text(n)),
    ensures
        digits_value(s, pos, pos + natural_text(n).len()) == n,
    decreases n,
{
    let d = natural_text(n);
    lemma_has_at(s, pos, d);
    if n < 10 {
        assert(d.len() == 1);
        assert(s[pos] == d[0]);
        assert(digits_value(s, pos, pos) == 0);
        assert(digits_value(s, pos, pos + 1) == digits_value(s, pos, pos) * 10 + (s[pos] as nat
            - '0' as nat) as nat);
    } else {
        let front = natural_text(n / 10);
        assert(d == front.push(crate::text::digit_char((n % 10) as int)));
        assert(d =~= front + seq![crate::text::digit_char((n % 10) as int)]);
        lemma_has_at_split(s, pos, front, seq![crate::text::digit_char((n % 10) as int)]);
        lemma_natural_value(s, pos, n / 10);
        let end = pos + d.len();
        assert(s[end - 1] == d[d.len() - 1]);
        assert(digits_value(s, pos, end) == digits_value(s, pos, end - 1) * 10 + (s[end - 1] as nat
            - '0' as nat) as nat);
    }
}

/// What may follow an operand in a printed program: nothing, a closing
/// parenthesis, a comma, an opening parenthesis or an operator.
pub open spec fn follows(s: Seq<char>, end: int) -> bool {
    end == s.len() || (0 <= end < s.len() && (s[end] == ')' || s[end] == ',' || s[end] == '('
        || operator_of(s[end]) is Some))
}

/// What ends an expression in a printed program: nothing, a closing
/// parenthesis or a comma.
pub open spec fn closes(s: Seq<char>, end: int) -> bool {
    end == s.len() || (0 <= end < s.len() && (s[end] == ')' || s[end] == ','))
}

/// The digits of a number that is no larger than the largest `i64` read as
/// that number.
pub proof fn lemma_reads_number(s: Seq<char>, pos: int, v: i64)
    requires
        0 <= pos,
        v >= 0,
        has_at(s, pos, natural_text(v as nat)),
        follows(s, pos + natural_text(v as nat).len()),
    ensures
        spec_number(s, pos) == Ok::<(int, i64), ErrView>(
            (pos + natural_text(v as nat).len(), v),
        ),
        s[pos] != '(',
        spec_identifier(s, pos) is Err,
        operator_of(s[pos]) is None,
        run_end(s, pos, Class::Space) == pos,
{
    let d = natural_text(v as nat);
    let end = pos + d.len();
    lemma_natural_digits(v as nat);
    lemma_has_at(s, pos, d);
    assert(s[pos] == d[0]);
    assert(is_digit(s[pos]));
    lemma_run(s, pos, pos, Class::Space);
    assert forall|k: int| pos <= k < end implies in_class(Class::Digit, #[trigger] s[k]) by {
        assert(s[pos + (k - pos)] == d[k - pos]);
    }
    lemma_run(s, pos, end, Class::Digit);
    lemma_natural_value(s, pos, v as nat);
    reveal_strlit("-");
    reveal_strlit("+");
    lemma_has_at_one(s, pos, '-');
    lemma_has_at_one(s, pos, '+');
    assert("-"@ =~= seq!['-']);
    assert("+"@ =~= seq!['+']);
}

/// An identifier that is followed by what follows an operand reads as
/// itself.
pub proof fn lemma_reads_name(s: Seq<char>, pos: int, name: Seq<char>)
    requires
        0 <= pos,
        is_name(name),
        has_at(s, pos, name),
        follows(s, pos + name.len()),
    ensures
        spec_identifier(s, pos) == Ok::<(int, Seq<char>), ErrView>((pos + name.len(), name)),
        s[pos] != '(',
        run_end(s, pos, Class::Space) == pos,
{
    let end = pos + name.len();
    lemma_has_at(s, pos, name);
    assert(s[pos] == name[0]);
    lemma_run(s, pos, pos, Class::Space);
    assert forall|k: int| pos + 1 <= k < end implies in_class(
        Class::Identifier,
        #[trigger] s[k],
    ) by {
        assert(s[pos + (k - pos)] == name[k - pos]);
    }
    lemma_run(s, pos + 1, end, Class::Identifier);
}

/// Where a character stands that is no space, a tag that is looked for
/// there is found just if it starts with that character.
pub proof fn lemma_tag_one(s: Seq<char>, pos: int, c: char)
    requires
        0 <= pos <= s.len(),
        pos == s.len() || !is_space(s[pos]),
    ensures
        run_end(s, pos, Class::Space) == pos,
        pos < s.len() && s[pos] == c ==> spec_tag(s, pos, seq![c]) == Ok::<int, ErrView>(pos + 1),
        !(pos < s.len() && s[pos] == c) ==> spec_tag(s, pos, seq![c]) is Err,
{
    lemma_run(s, pos, pos, Class::Space);
    lemma_has_at_one(s, pos, c);
}

/// The texts of the four tags, character by character.
pub proof fn lemma_tags()
    ensures
        "("@ == seq!['('],
        ")"@ == seq![')'],
        ","@ == seq![','],
        "="@ == seq!['='],
{
    reveal_strlit("(");
    reveal_strlit(")");
    reveal_strlit(",");
    reveal_strlit("=");
    assert("("@ =~= seq!['(']);
    assert(")"@ =~= seq![')']);
    assert(","@ =~= seq![',']);
    assert("="@ =~= seq!['=']);
}

/// An expression that is followed by what ends an expression is not
/// continued.
pub proof fn lemma_tail_stops(s: Seq<char>, pos: int, left: nat, min_prec: Precedence, base: nat)
    requires
        0 <= pos <= s.len(),
        closes(s, pos),
    ensures
        p_tail(s, pos, left, min_prec, base) == (Parsed {
            added: Seq::<Option<NodeView>>::empty(),
            result: Ok::<(int, nat), ErrView>((pos, left)),
        }),
{
    lemma_tags();
    lemma_tag_one(s, pos, '(');
    let args = p_args(s, pos, base);
    assert(args.result is Err);
    assert(args.added =~= Seq::<Option<NodeView>>::empty());
    assert(spec_operator(s, pos, min_prec) is Err);
    let step = p_led(s, pos, left, min_prec, base);
    assert(step.result is Err);
    assert(step.added =~= Seq::<Option<NodeView>>::empty());
}

/// Adding nodes before a parse, and more before that, is adding all of
/// them before it.
pub proof fn lemma_after_adding<T>(a: Model, b: Model, p: Parsed<T>)
    ensures
        after_adding(a, after_adding(b, p)) == after_adding(a + b, p),
{
    assert(a + (b + p.added) =~= (a + b) + p.added);
}

/// The token of an operator is read as that operator.
pub proof fn lemma_operator_token(op: Operator)
    ensures
        operator_of(op.token_char()) == Some(op),
        !is_space(op.token_char()),
        op.token_char() != '(',
{
}

/// The text of an operand starts with a digit, with the start of an
/// identifier or with an opening parenthesis: with no space.
pub proof fn lemma_operand_start(t: Tree)
    requires
        readable(t),
    ensures
        operand(t).len() > 0,
        !is_space(operand(t)[0]),
        operator_of(operand(t)[0]) is None,
        operand(t)[0] != ')' && operand(t)[0] != ',',
    decreases t,
{
    match t {
        Tree::Int(v) => {
            lemma_natural_digits(v as nat);
        },
        Tree::Sym(name) => {},
        Tree::Bin(op, a, b) => {},
        Tree::App(callee, args) => {
            lemma_operand_start(*callee);
            assert(operand(t)[0] == operand(*callee)[0]);
        },
    }
}

/// Where the text of an operand stands and an identifier is read, what
/// comes after the identifier is neither a space nor an equals sign.
pub proof fn lemma_name_in_operand(t: Tree, s: Seq<char>, q: int)
    requires
        readable(t),
        0 <= q,
        has_at(s, q, operand(t)),
        follows(s, q + operand(t).len()),
    ensures
        spec_identifier(s, q) matches Ok((after, _)) ==> q < after <= s.len() && (after == s.len()
            || (!is_space(s[after]) && s[after] != '=')),
    decreases t,
{
    match t {
        Tree::Int(v) => {
            lemma_reads_number(s, q, v);
        },
        Tree::Sym(name) => {
            lemma_reads_name(s, q, name);
        },
        Tree::Bin(op, a, b) => {
            lemma_has_at(s, q, operand(t));
            assert(s[q + 0] == operand(t)[0]);
        },
        Tree::App(callee, args) => {
            let head = operand(*callee);
            let rest = seq!['('] + args_text(args, 0) + seq![')'];
            assert(operand(t) =~= head + rest);
            lemma_has_at_split(s, q, head, rest);
            lemma_has_at(s, q + head.len(), rest);
            assert(s[q + head.len() + 0] == rest[0]);
            lemma_name_in_operand(*callee, s, q);
        },
    }
}

/// Where the text of an operand stands, no name of an argument is read.
pub proof fn lemma_no_binding(t: Tree, s: Seq<char>, at: int, q: int)
    requires
        readable(t),
        0 <= at <= q,
        run_end(s, at, Class::Space) == q,
        has_at(s, q, operand(t)),
        follows(s, q + operand(t).len()),
    ensures
        spec_binding(s, at) is Err,
{
    lemma_name_in_operand(t, s, q);
    lemma_tags();
    match spec_identifier(s, q) {
        Ok((after, name)) => {
            lemma_tag_one(s, after, '=');
        },
        Err(_) => {},
    }
}

/// Whether reading an expression at `pos` comes to the tree `t`, which
/// ends at `end`, and to whatever continues it there.
pub open spec fn reads_to(
    s: Seq<char>,
    pos: int,
    min_prec: Precedence,
    base: nat,
    t: Tree,
    end: int,
) -> bool {
    p_expr(s, pos, min_prec, base) == after_adding(
        build(t, base).nodes,
        p_tail(s, end, build(t, base).root, min_prec, base + build(t, base).nodes.len()),
    )
}

/// The text at `cur` of the arguments from number `from` on, with the comma
/// before them where they are not the first.
pub open spec fn list_text(args: Seq<Tree>, from: nat) -> Seq<char> {
    if from == 0 {
        args_text(args, 0)
    } else if from < args.len() {
        seq![',', ' '] + args_text(args, from)
    } else {
        Seq::empty()
    }
}

/// An expression is its operand and what continues the operand.
pub proof fn lemma_expr_unfolds(
    s: Seq<char>,
    pos: int,
    min_prec: Precedence,
    base: nat,
    nodes: Model,
    end: int,
    root: nat,
)
    requires
        0 <= pos <= end <= s.len(),
        p_nud(s, pos, base) == (Parsed {
            added: nodes,
            result: Ok::<(int, nat), ErrView>((end, root)),
        }),
    ensures
        p_expr(s, pos, min_prec, base) == after_adding(
            nodes,
            p_tail(s, end, root, min_prec, base + nodes.len()),
        ),
{
}

/// An operand that starts with digits is the number that they stand for.
pub proof fn lemma_nud_number(s: Seq<char>, pos: int, q: int, base: nat, v: i64, end: int)
    requires
        0 <= pos <= q < s.len(),
        run_end(s, pos, Class::Space) == q,
        s[q] != '(',
        spec_identifier(s, q) is Err,
        operator_of(s[q]) is None,
        spec_number(s, q) == Ok::<(int, i64), ErrView>((end, v)),
    ensures
        p_nud(s, pos, base) == (Parsed {
            added: seq![Some(NodeView::I64(v))],
            result: Ok::<(int, nat), ErrView>((end, base)),
        }),
{
}

/// An operand that starts with an identifier is the symbol of that name,
/// with what follows it.
pub proof fn lemma_nud_symbol(s: Seq<char>, pos: int, q: int, base: nat, name: Seq<char>, end: int)
    requires
        0 <= pos <= q < end <= s.len(),
        run_end(s, pos, Class::Space) == q,
        s[q] != '(',
        spec_identifier(s, q) == Ok::<(int, Seq<char>), ErrView>((end, name)),
    ensures
        p_nud(s, pos, base) == p_symbol(s, end, name, base),
{
}

/// A symbol that no list of arguments follows is the symbol alone.
pub proof fn lemma_symbol_alone(s: Seq<char>, end: int, name: Seq<char>, base: nat)
    requires
        0 <= end <= s.len(),
        p_args(s, end, base + 1).result is Err,
        p_args(s, end, base + 1).added == Seq::<Option<NodeView>>::empty(),
    ensures
        p_symbol(s, end, name, base) == (Parsed {
            added: seq![Some(NodeView::Symbol(name))],
            result: Ok::<(int, nat), ErrView>((end, base)),
        }),
{
    assert(seq![Some(NodeView::Symbol(name))] + Seq::<Option<NodeView>>::empty() =~= seq![
        Some(NodeView::Symbol(name)),
    ]);
}

/// A symbol that a list of arguments follows is called on the arguments.
pub proof fn lemma_symbol_call(
    s: Seq<char>,
    open: int,
    name: Seq<char>,
    base: nat,
    nodes: Model,
    items: Seq<(Seq<char>, nat)>,
    end: int,
)
    requires
        0 <= open <= s.len(),
        p_args(s, open, base + 1) == (Parsed {
            added: nodes,
            result: Ok::<(int, Seq<(Seq<char>, nat)>), ErrView>((end, items)),
        }),
    ensures
        p_symbol(s, open, name, base) == (Parsed {
            added: seq![Some(NodeView::Symbol(name))] + nodes + seq![
                Some(call_node(base, items)),
            ],
            result: Ok::<(int, nat), ErrView>((end, base + 1 + nodes.len())),
        }),
{
}

/// An operand in parentheses is the expression between them.
pub proof fn lemma_nud_parentheses(
    s: Seq<char>,
    pos: int,
    q: int,
    base: nat,
    nodes: Model,
    close: int,
    root: nat,
)
    requires
        0 <= pos <= q < s.len(),
        run_end(s, pos, Class::Space) == q,
        s[q] == '(',
        p_expr(s, q + 1, MIN_PRECENDENCE, base) == (Parsed {
            added: nodes,
            result: Ok::<(int, nat), ErrView>((close, root)),
        }),
        spec_tag(s, close, ")"@) == Ok::<int, ErrView>(close + 1),
    ensures
        p_nud(s, pos, base) == (Parsed {
            added: nodes,
            result: Ok::<(int, nat), ErrView>((close + 1, root)),
        }),
{
}

/// An expression that a list of arguments follows is called on the
/// arguments, and what follows the list continues the call.
pub proof fn lemma_tail_call(
    s: Seq<char>,
    open: int,
    left: nat,
    min_prec: Precedence,
    base: nat,
    nodes: Model,
    items: Seq<(Seq<char>, nat)>,
    end: int,
)
    requires
        0 <= open < end <= s.len(),
        p_args(s, open, base) == (Parsed {
            added: nodes,
            result: Ok::<(int, Seq<(Seq<char>, nat)>), ErrView>((end, items)),
        }),
    ensures
        p_tail(s, open, left, min_prec, base) == after_adding(
            nodes + seq![Some(call_node(left, items))],
            p_tail(s, end, base + nodes.len(), min_prec, base + nodes.len() + 1),
        ),
{
    let step = p_led(s, open, left, min_prec, base);
    assert(step.added == nodes + seq![Some(call_node(left, items))]);
    assert(step.result == Ok::<(int, nat), ErrView>((end, base + nodes.len())));
    assert(base + step.added.len() == base + nodes.len() + 1);
}

/// Whether the text of the operand `t` stands at `q`, after the spaces
/// from `pos` on, and is followed by what may follow it.
pub open spec fn operand_at(t: Tree, s: Seq<char>, pos: int, q: int) -> bool {
    &&& readable(t)
    &&& 0 <= pos <= q
    &&& run_end(s, pos, Class::Space) == q
    &&& has_at(s, q, operand(t))
    &&& follows(s, q + operand(t).len())
    &&& t is Sym ==> !(q + operand(t).len() < s.len() && s[q + operand(t).len()] == '(')
}

/// The printed text of a constant reads as the constant.
pub proof fn lemma_reads_constant(
    t: Tree,
    s: Seq<char>,
    pos: int,
    q: int,
    min_prec: Precedence,
    base: nat,
)
    requires
        operand_at(t, s, pos, q),
        t is Int,
    ensures
        reads_to(s, pos, min_prec, base, t, q + operand(t).len()),
{
    let end = q + operand(t).len();
    let built = build(t, base);
    lemma_reads_number(s, q, t->Int_0);
    lemma_nud_number(s, pos, q, base, t->Int_0, end);
    lemma_expr_unfolds(s, pos, min_prec, base, built.nodes, end, built.root);
}

/// The printed text of a symbol reads as the symbol.
pub proof fn lemma_reads_symbol(
    t: Tree,
    s: Seq<char>,
    pos: int,
    q: int,
    min_prec: Precedence,
    base: nat,
)
    requires
        operand_at(t, s, pos, q),
        t is Sym,
    ensures
        reads_to(s, pos, min_prec, base, t, q + operand(t).len()),
{
    let end = q + operand(t).len();
    let built = build(t, base);
    let name = t->Sym_0;
    lemma_tags();
    lemma_reads_name(s, q, name);
    lemma_tag_one(s, end, '(');
    let args = p_args(s, end, base + 1);
    assert(args.result is Err);
    assert(args.added =~= Seq::<Option<NodeView>>::empty());
    lemma_symbol_alone(s, end, name, base);
    lemma_nud_symbol(s, pos, q, base, name, end);
    lemma_expr_unfolds(s, pos, min_prec, base, built.nodes, end, built.root);
}

/// The printed text of an operator between two operands, in parentheses,
/// reads as what stands between the parentheses.
pub proof fn lemma_reads_parentheses(
    t: Tree,
    s: Seq<char>,
    pos: int,
    q: int,
    min_prec: Precedence,
    base: nat,
)
    requires
        operand_at(t, s, pos, q),
        t is Bin,
    ensures
        reads_to(s, pos, min_prec, base, t, q + operand(t).len()),
    decreases t, 4nat,
{
    let end = q + operand(t).len();
    let built = build(t, base);
    let inner = text(t);
    lemma_tags();
    assert(operand(t) =~= seq!['('] + (inner + seq![')']));
    lemma_has_at_split(s, q, seq!['('], inner + seq![')']);
    lemma_has_at_one(s, q, '(');
    lemma_has_at_split(s, q + 1, inner, seq![')']);
    lemma_has_at_one(s, q + 1 + inner.len(), ')');
    let close = q + 1 + inner.len();
    lemma_reads_binary(t, s, q + 1, MIN_PRECENDENCE, base);
    lemma_tail_stops(s, close, built.root, MIN_PRECENDENCE, base + built.nodes.len());
    lemma_inside(s, q + 1, base, built.nodes, close, built.root);
    lemma_tag_one(s, close, ')');
    lemma_nud_parentheses(s, pos, q, base, built.nodes, close, built.root);
    lemma_expr_unfolds(s, pos, min_prec, base, built.nodes, end, built.root);
}

/// The printed text of a call of a symbol reads as that call.
pub proof fn lemma_reads_named_call(
    t: Tree,
    s: Seq<char>,
    pos: int,
    q: int,
    min_prec: Precedence,
    base: nat,
)
    requires
        operand_at(t, s, pos, q),
        t is App,
        *t->App_0 is Sym,
    ensures
        reads_to(s, pos, min_prec, base, t, q + operand(t).len()),
    decreases t, 4nat,
{
    let end = q + operand(t).len();
    let built = build(t, base);
    let callee = *t->App_0;
    let args = t->App_1;
    let name = callee->Sym_0;
    let head = operand(callee);
    let rest = seq!['('] + args_text(args, 0) + seq![')'];
    assert(readable(callee));
    assert(operand(t) =~= head + rest);
    lemma_has_at_split(s, q, head, rest);
    let open = q + head.len();
    lemma_has_at(s, open, rest);
    assert(s[open + 0] == rest[0]);
    let list = build_list(args, 0, base + 1);
    lemma_reads_name(s, q, name);
    lemma_reads_args(args, s, open, base + 1);
    lemma_symbol_call(s, open, name, base, list.nodes, list.items, end);
    lemma_nud_symbol(s, pos, q, base, name, open);
    let made = build(callee, base);
    assert(made.nodes == seq![Some(NodeView::Symbol(name))] && made.root == base);
    assert(base + made.nodes.len() == base + 1);
    assert(built.nodes == made.nodes + list.nodes + seq![Some(call_node(made.root, list.items))]);
    lemma_expr_unfolds(s, pos, min_prec, base, built.nodes, end, built.root);
}

/// The printed text of a call of what is no symbol reads as that call.
pub proof fn lemma_reads_call(
    t: Tree,
    s: Seq<char>,
    pos: int,
    q: int,
    min_prec: Precedence,
    base: nat,
)
    requires
        operand_at(t, s, pos, q),
        t is App,
        !(*t->App_0 is Sym),
    ensures
        reads_to(s, pos, min_prec, base, t, q + operand(t).len()),
    decreases t, 4nat,
{
    let end = q + operand(t).len();
    let built = build(t, base);
    let callee = *t->App_0;
    let args = t->App_1;
    let head = operand(callee);
    let rest = seq!['('] + args_text(args, 0) + seq![')'];
    assert(readable(callee));
    assert(operand(t) =~= head + rest);
    lemma_has_at_split(s, q, head, rest);
    let open = q + head.len();
    lemma_has_at(s, open, rest);
    assert(s[open + 0] == rest[0]);
    let made = build(callee, base);
    lemma_build_root(callee, base);
    let after_head = base + made.nodes.len();
    let list = build_list(args, 0, after_head);
    lemma_reads_operand(callee, s, pos, q, min_prec, base);
    lemma_reads_args(args, s, open, after_head);
    lemma_tail_call(s, open, made.root, min_prec, after_head, list.nodes, list.items, end);
    let step = list.nodes + seq![Some(call_node(made.root, list.items))];
    let next = p_tail(
        s,
        end,
        after_head + list.nodes.len(),
        min_prec,
        after_head + list.nodes.len() + 1,
    );
    lemma_after_adding(made.nodes, step, next);
    assert(made.nodes + step =~= built.nodes);
    assert(base + built.nodes.len() == after_head + list.nodes.len() + 1);
}

/// The printed text of an operand reads as the operand.
pub proof fn lemma_reads_operand(
    t: Tree,
    s: Seq<char>,
    pos: int,
    q: int,
    min_prec: Precedence,
    base: nat,
)
    requires
        operand_at(t, s, pos, q),
    ensures
        reads_to(s, pos, min_prec, base, t, q + operand(t).len()),
    decreases t, 5nat,
{
    match t {
        Tree::Int(v) => {
            lemma_reads_constant(t, s, pos, q, min_prec, base);
        },
        Tree::Sym(name) => {
            lemma_reads_symbol(t, s, pos, q, min_prec, base);
        },
        Tree::Bin(op, a, b) => {
            lemma_reads_parentheses(t, s, pos, q, min_prec, base);
        },
        Tree::App(callee, args) => {
            if *callee is Sym {
                lemma_reads_named_call(t, s, pos, q, min_prec, base);
            } else {
                lemma_reads_call(t, s, pos, q, min_prec, base);
            }
        },
    }
}

/// An expression that reads as a tree and is not continued is that tree.
pub proof fn lemma_inside(
    s: Seq<char>,
    pos: int,
    base: nat,
    nodes: Model,
    end: int,
    root: nat,
)
    requires
        p_expr(s, pos, MIN_PRECENDENCE, base) == after_adding(
            nodes,
            p_tail(s, end, root, MIN_PRECENDENCE, base + nodes.len()),
        ),
        p_tail(s, end, root, MIN_PRECENDENCE, base + nodes.len()) == (Parsed {
            added: Seq::<Option<NodeView>>::empty(),
            result: Ok::<(int, nat), ErrView>((end, root)),
        }),
    ensures
        p_expr(s, pos, MIN_PRECENDENCE, base) == (Parsed {
            added: nodes,
            result: Ok::<(int, nat), ErrView>((end, root)),
        }),
{
    assert(nodes + Seq::<Option<NodeView>>::empty() =~= nodes);
}

/// The text of a program starts with no space.
pub proof fn lemma_text_start(t: Tree)
    requires
        readable(t),
    ensures
        text(t).len() > 0,
        !is_space(text(t)[0]),
    decreases t,
{
    match t {
        Tree::Int(v) => {
            lemma_natural_digits(v as nat);
        },
        Tree::Sym(name) => {},
        Tree::Bin(op, a, b) => {
            lemma_operand_start(*a);
            assert(text(t)[0] == operand(*a)[0]);
        },
        Tree::App(callee, args) => {
            lemma_operand_start(*callee);
            assert(text(t)[0] == operand(*callee)[0]);
        },
    }
}

/// An expression that an operator follows, of a precedence that is taken,
/// is the left operand of that operator; the expression after the
/// operator is the right operand, and what follows it continues the whole.
pub proof fn lemma_tail_operator(
    s: Seq<char>,
    mid: int,
    left: nat,
    min_prec: Precedence,
    base: nat,
    op: Operator,
    nodes: Model,
    right: nat,
    end: int,
)
    requires
        0 <= mid < end <= s.len(),
        p_args(s, mid, base).result is Err,
        p_args(s, mid, base).added == Seq::<Option<NodeView>>::empty(),
        run_end(s, mid, Class::Space) == mid,
        spec_operator(s, mid, min_prec) == Ok::<(int, Operator), ErrView>((mid + 1, op)),
        p_expr(s, mid + 1, (precedence_of(op) + 1) as i32, base + 1) == (Parsed {
            added: nodes,
            result: Ok::<(int, nat), ErrView>((end, right)),
        }),
    ensures
        p_tail(s, mid, left, min_prec, base) == after_adding(
            seq![Some(NodeView::Operator(op))] + nodes + seq![
                Some(call_node(base, seq![("arg_0"@, left), ("arg_1"@, right)])),
            ],
            p_tail(s, end, base + 1 + nodes.len(), min_prec, base + nodes.len() + 2),
        ),
{
    let step = p_led(s, mid, left, min_prec, base);
    let all = seq![Some(NodeView::Operator(op))] + nodes + seq![
        Some(call_node(base, seq![("arg_0"@, left), ("arg_1"@, right)])),
    ];
    assert(base + Seq::<Option<NodeView>>::empty().len() == base);
    assert(step.added =~= all);
    assert(step.result == Ok::<(int, nat), ErrView>((end, base + 1 + nodes.len())));
    assert(base + step.added.len() == base + nodes.len() + 2);
}

/// An expression that reads as a tree and is not continued is that tree,
/// whatever operators are taken.
pub proof fn lemma_ends(
    s: Seq<char>,
    pos: int,
    min_prec: Precedence,
    base: nat,
    nodes: Model,
    end: int,
    root: nat,
)
    requires
        p_expr(s, pos, min_prec, base) == after_adding(
            nodes,
            p_tail(s, end, root, min_prec, base + nodes.len()),
        ),
        p_tail(s, end, root, min_prec, base + nodes.len()) == (Parsed {
            added: Seq::<Option<NodeView>>::empty(),
            result: Ok::<(int, nat), ErrView>((end, root)),
        }),
    ensures
        p_expr(s, pos, min_prec, base) == (Parsed {
            added: nodes,
            result: Ok::<(int, nat), ErrView>((end, root)),
        }),
{
    assert(nodes + Seq::<Option<NodeView>>::empty() =~= nodes);
}

/// The printed text of an operator between two operands reads as such,
/// where operators of its precedence are taken.
pub proof fn lemma_reads_binary(
    t: Tree,
    s: Seq<char>,
    pos: int,
    min_prec: Precedence,
    base: nat,
)
    requires
        readable(t),
        t is Bin,
        0 <= pos,
        has_at(s, pos, text(t)),
        closes(s, pos + text(t).len()),
        precedence_of(t->Bin_0) >= min_prec,
    ensures
        reads_to(s, pos, min_prec, base, t, pos + text(t).len()),
    decreases t, 0nat,
{
    let op = t->Bin_0;
    let a = *t->Bin_1;
    let b = *t->Bin_2;
    let built = build(t, base);
    let end = pos + text(t).len();
    let first = operand(a);
    let second = operand(b);
    lemma_tags();
    assert(readable(a) && readable(b));
    assert(text(t) =~= first + (seq![op.token_char()] + second));
    lemma_has_at_split(s, pos, first, seq![op.token_char()] + second);
    let mid = pos + first.len();
    lemma_has_at_split(s, mid, seq![op.token_char()], second);
    lemma_has_at_one(s, mid, op.token_char());
    lemma_operator_token(op);
    lemma_operand_start(a);
    lemma_has_at(s, pos, first);
    assert(s[pos + 0] == first[0]);
    lemma_run(s, pos, pos, Class::Space);
    lemma_reads_operand(a, s, pos, pos, min_prec, base);
    let left = build(a, base);
    lemma_build_root(a, base);
    let operator = base + left.nodes.len();
    // the operator is no list of arguments
    lemma_tag_one(s, mid, '(');
    let args = p_args(s, mid, operator);
    assert(args.result is Err);
    assert(args.added =~= Seq::<Option<NodeView>>::empty());
    assert(spec_operator(s, mid, min_prec) == Ok::<(int, Operator), ErrView>((mid + 1, op)));
    // the right operand
    lemma_operand_start(b);
    lemma_has_at(s, mid + 1, second);
    assert(s[mid + 1 + 0] == second[0]);
    lemma_run(s, mid + 1, mid + 1, Class::Space);
    let floor = (precedence_of(op) + 1) as i32;
    lemma_reads_operand(b, s, mid + 1, mid + 1, floor, operator + 1);
    let right = build(b, operator + 1);
    lemma_build_root(b, operator + 1);
    lemma_tail_stops(s, end, right.root, floor, operator + 1 + right.nodes.len());
    lemma_ends(s, mid + 1, floor, operator + 1, right.nodes, end, right.root);
    lemma_tail_operator(s, mid, left.root, min_prec, operator, op, right.nodes, right.root, end);
    let step = seq![Some(NodeView::Operator(op))] + right.nodes + seq![
        Some(call_node(operator, seq![("arg_0"@, left.root), ("arg_1"@, right.root)])),
    ];
    let next = p_tail(
        s,
        end,
        operator + 1 + right.nodes.len(),
        min_prec,
        operator + right.nodes.len() + 2,
    );
    lemma_after_adding(left.nodes, step, next);
    assert(left.nodes + step =~= built.nodes);
    assert(base + built.nodes.len() == operator + right.nodes.len() + 2);
}

/// The printed text of a list of arguments in parentheses reads as the
/// arguments, each under its positional name.
pub proof fn lemma_reads_args(args: Seq<Tree>, s: Seq<char>, pos: int, base: nat)
    requires
        forall|i: int| 0 <= i < args.len() ==> readable(#[trigger] args[i]),
        0 <= pos,
        has_at(s, pos, seq!['('] + args_text(args, 0) + seq![')']),
    ensures
        p_args(s, pos, base) == (Parsed {
            added: build_list(args, 0, base).nodes,
            result: Ok::<(int, Seq<(Seq<char>, nat)>), ErrView>(
                (pos + args_text(args, 0).len() + 2, build_list(args, 0, base).items),
            ),
        }),
    decreases args, args.len() + 1,
{
    lemma_tags();
    let inside = args_text(args, 0);
    assert(seq!['('] + inside + seq![')'] =~= seq!['('] + (inside + seq![')']));
    lemma_has_at_split(s, pos, seq!['('], inside + seq![')']);
    lemma_has_at_one(s, pos, '(');
    lemma_tag_one(s, pos, '(');
    assert(list_text(args, 0) == inside);
    lemma_reads_list(args, 0, s, pos + 1, base);
    let close = pos + 1 + inside.len();
    lemma_has_at_split(s, pos + 1, inside, seq![')']);
    lemma_has_at_one(s, close, ')');
    lemma_tag_one(s, close, ')');
}

/// A list ends where a closing parenthesis stands.
pub proof fn lemma_list_ends(s: Seq<char>, cur: int, base: nat, arg_num: nat, first: bool)
    requires
        0 <= cur < s.len(),
        s[cur] == ')',
    ensures
        p_list(s, cur, base, arg_num, first) == (Parsed {
            added: Seq::<Option<NodeView>>::empty(),
            result: Ok::<(int, Seq<(Seq<char>, nat)>), ErrView>((cur, Seq::empty())),
        }),
{
    lemma_tags();
    lemma_tag_one(s, cur, ',');
    if first {
        lemma_tag_one(s, cur, '=');
        lemma_run(s, cur, cur, Class::Digit);
        reveal_strlit("-");
        reveal_strlit("+");
        lemma_has_at_one(s, cur, '-');
        lemma_has_at_one(s, cur, '+');
        assert("-"@ =~= seq!['-']);
        assert("+"@ =~= seq!['+']);
        assert(spec_identifier(s, cur) is Err);
        assert(spec_binding(s, cur) is Err);
        assert(spec_number(s, cur) is Err);
        let nud = p_nud(s, cur, base);
        assert(nud.result is Err);
        assert(nud.added =~= Seq::<Option<NodeView>>::empty());
        let read = p_expr(s, cur, MIN_PRECENDENCE, base);
        assert(read == nud);
        let item = p_item(s, cur, base, arg_num);
        assert(item.result is Err);
        assert(item.added =~= Seq::<Option<NodeView>>::empty());
    }
}

/// A list goes on with an argument that is read by position, and with the
/// arguments after it.
pub proof fn lemma_list_goes_on(
    s: Seq<char>,
    cur: int,
    at: int,
    end: int,
    base: nat,
    arg_num: nat,
    first: bool,
    nodes: Model,
    root: nat,
)
    requires
        0 <= cur <= at <= s.len(),
        cur < end <= s.len(),
        first ==> at == cur,
        !first ==> spec_tag(s, cur, ","@) == Ok::<int, ErrView>(at),
        spec_binding(s, at) is Err,
        p_expr(s, at, MIN_PRECENDENCE, base) == (Parsed {
            added: nodes,
            result: Ok::<(int, nat), ErrView>((end, root)),
        }),
    ensures
        p_list(s, cur, base, arg_num, first) == (Parsed {
            added: nodes + p_list(s, end, base + nodes.len(), arg_num + 1, false).added,
            result: crate::parser::with_front(
                seq![(positional_name(arg_num), root)],
                p_list(s, end, base + nodes.len(), arg_num + 1, false).result,
            ),
        }),
{
    let item = p_item(s, at, base, arg_num);
    assert(crate::parser::positional_name(arg_num) == positional_name(arg_num));
    assert(item.added == nodes);
    assert(item.result == Ok::<(int, (Seq<char>, nat)), ErrView>(
        (end, (positional_name(arg_num), root)),
    ));
}

/// The printed text of the arguments from number `from` on reads as those
/// arguments.
pub proof fn lemma_reads_list(args: Seq<Tree>, from: nat, s: Seq<char>, cur: int, base: nat)
    requires
        forall|i: int| 0 <= i < args.len() ==> readable(#[trigger] args[i]),
        from <= args.len(),
        0 <= cur,
        has_at(s, cur, list_text(args, from) + seq![')']),
    ensures
        p_list(s, cur, base, from, from == 0) == (Parsed {
            added: build_list(args, from, base).nodes,
            result: Ok::<(int, Seq<(Seq<char>, nat)>), ErrView>(
                (cur + list_text(args, from).len(), build_list(args, from, base).items),
            ),
        }),
    decreases args, args.len() - from,
{
    let here = list_text(args, from);
    lemma_has_at_split(s, cur, here, seq![')']);
    lemma_has_at_one(s, cur + here.len(), ')');
    if from >= args.len() {
        assert(here =~= Seq::<char>::empty());
        lemma_list_ends(s, cur, base, from, from == 0);
    } else {
        let arg = args[from as int];
        let shown = operand(arg);
        let more = list_text(args, from + 1);
        let lead: Seq<char> = if from == 0 {
            Seq::empty()
        } else {
            seq![',', ' ']
        };
        assert(args_text(args, from) =~= shown + more);
        assert(here =~= lead + (shown + more));
        let q = cur + lead.len();
        let end = q + shown.len();
        assert(here + seq![')'] =~= lead + (shown + (more + seq![')'])));
        lemma_has_at_split(s, cur, lead, shown + (more + seq![')']));
        lemma_has_at_split(s, q, shown, more + seq![')']);
        lemma_has_at(s, end, more + seq![')']);
        assert(s[end + 0] == (more + seq![')'])[0]);
        assert(closes(s, end));
        lemma_operand_start(arg);
        lemma_has_at(s, q, shown);
        assert(s[q + 0] == shown[0]);
        lemma_run(s, q, q, Class::Space);
        let at = if from == 0 {
            cur
        } else {
            cur + 1
        };
        if from > 0 {
            lemma_comma(s, cur, q);
        }
        lemma_no_binding(arg, s, at, q);
        lemma_reads_operand(arg, s, at, q, MIN_PRECENDENCE, base);
        let made = build(arg, base);
        lemma_build_root(arg, base);
        lemma_tail_stops(s, end, made.root, MIN_PRECENDENCE, base + made.nodes.len());
        lemma_inside(s, at, base, made.nodes, end, made.root);
        lemma_list_goes_on(s, cur, at, end, base, from, from == 0, made.nodes, made.root);
        assert(has_at(s, end, more + seq![')']));
        lemma_reads_list(args, from + 1, s, end, base + made.nodes.len());
        assert(here.len() == lead.len() + shown.len() + more.len());
    }
}

/// A comma and a space before an argument: the comma is read, and the
/// space is passed over.
pub proof fn lemma_comma(s: Seq<char>, cur: int, q: int)
    requires
        0 <= cur,
        q == cur + 2,
        has_at(s, cur, seq![',', ' ']),
        q == s.len() || !is_space(s[q]),
        q <= s.len(),
    ensures
        spec_tag(s, cur, ","@) == Ok::<int, ErrView>(cur + 1),
        run_end(s, cur + 1, Class::Space) == q,
{
    lemma_tags();
    lemma_has_at(s, cur, seq![',', ' ']);
    assert(s[cur + 0] == seq![',', ' '][0]);
    assert(s[cur + 1] == seq![',', ' '][1]);
    lemma_tag_one(s, cur, ',');
    lemma_run(s, cur + 1, q, Class::Space);
}

/// What the parser makes of the printed text of a program.
pub proof fn lemma_reads_program(t: Tree, base: nat)
    requires
        readable(t),
    ensures
        p_program(text(t), base) == (Parsed {
            added: build(t, base).nodes,
            result: Ok::<(int, nat), ErrView>((text(t).len() as int, build(t, base).root)),
        }),
{
    let s = text(t);
    let end = s.len() as int;
    let built = build(t, base);
    lemma_text_start(t);
    lemma_run(s, 0, 0, Class::Space);
    assert(s.subrange(0, end) =~= s);
    if t is Bin {
        lemma_reads_binary(t, s, 0, INIT_PRECENDENCE, base);
    } else {
        assert(operand(t) == s);
        lemma_reads_operand(t, s, 0, 0, INIT_PRECENDENCE, base);
    }
    lemma_tail_stops(s, end, built.root, INIT_PRECENDENCE, base + built.nodes.len());
    let whole = p_expr(s, 0, INIT_PRECENDENCE, base);
    assert(whole.added =~= built.nodes);
    assert(whole.result == Ok::<(int, nat), ErrView>((end, built.root)));
    lemma_run(s, end, end, Class::Space);
    let rest = p_rest(s, end, built.root, base + built.nodes.len());
    assert(rest.added =~= Seq::<Option<NodeView>>::empty());
    assert(p_program(s, base).added =~= built.nodes);
}

/// The tree that the node `id` of the store `m` stands for, where it is
/// one of those that are told apart here: a constant, a symbol, a call of
/// an operator node on exactly the arguments `arg_0` and `arg_1`, or a call
/// of such a tree that is no operator on arguments that are all given by
/// position. `fuel` bounds the depth, as it does for the printer.
pub open spec fn tree_of(m: Model, id: nat, fuel: nat) -> Option<Tree>
    decreases fuel, 0int,
{
    if fuel == 0 || id >= m.len() {
        None
    } else {
        match m[id as int] {
            Some(NodeView::I64(v)) => Some(Tree::Int(v)),
            Some(NodeView::Symbol(name)) => Some(Tree::Sym(name)),
            Some(NodeView::Call(call)) => {
                if call.callee < m.len() && m[call.callee as int] matches Some(
                    NodeView::Operator(op),
                ) {
                    if call.args.len() == 2 && call.args[0].0 == positional_name(0)
                        && call.args[1].0 == positional_name(1) {
                        match (
                            tree_of(m, call.args[0].1, (fuel - 1) as nat),
                            tree_of(m, call.args[1].1, (fuel - 1) as nat),
                        ) {
                            (Some(a), Some(b)) => Some(
                                Tree::Bin(
                                    m[call.callee as int]->Some_0->Operator_0,
                                    Box::new(a),
                                    Box::new(b),
                                ),
                            ),
                            _ => None,
                        }
                    } else {
                        None
                    }
                } else {
                    match (
                        tree_of(m, call.callee, (fuel - 1) as nat),
                        trees_of(m, call.args, 0, (fuel - 1) as nat),
                    ) {
                        (Some(callee), Some(args)) => Some(Tree::App(Box::new(callee), args)),
                        _ => None,
                    }
                }
            },
            _ => None,
        }
    }
}

/// The trees that the arguments `args` from number `from` on stand for,
/// where each is given by position and stands for a tree.
pub open spec fn trees_of(m: Model, args: Seq<(Seq<char>, nat)>, from: nat, fuel: nat) -> Option<
    Seq<Tree>,
>
    decreases fuel, 1 + args.len() - from,
{
    if from >= args.len() {
        Some(Seq::empty())
    } else if args[from as int].0 != positional_name(from) {
        None
    } else {
        match (tree_of(m, args[from as int].1, fuel), trees_of(m, args, from + 1, fuel)) {
            (Some(first), Some(rest)) => Some(seq![first] + rest),
            _ => None,
        }
    }
}

/// A call reads as it prints just if its callee and its arguments do.
pub proof fn lemma_readable_call(callee: Tree, args: Seq<Tree>)
    requires
        readable(Tree::App(Box::new(callee), args)),
    ensures
        readable(callee),
        forall|i: int| 0 <= i < args.len() ==> readable(#[trigger] args[i]),
{
    let t = Tree::App(Box::new(callee), args);
    assert(readable(t));
    assert(readable(callee));
    assert forall|i: int| 0 <= i < args.len() implies readable(#[trigger] args[i]) by {
        assert(t->App_1[i] == args[i]);
    }
}

/// A node that stands for a tree that reads as it prints prints as the
/// text of that tree.
pub proof fn lemma_tree_prints(m: Model, id: nat, fuel: nat)
    requires
        tree_of(m, id, fuel) is Some,
        readable(tree_of(m, id, fuel)->Some_0),
    ensures
        printed(m, id, fuel) == printed_tree(tree_of(m, id, fuel)->Some_0),
    decreases fuel, 0int,
{
    let t = tree_of(m, id, fuel)->Some_0;
    let f = (fuel - 1) as nat;
    match m[id as int] {
        Some(NodeView::I64(v)) => {
            assert(integer_text(v as int) == natural_text(v as nat));
        },
        Some(NodeView::Symbol(name)) => {
            assert(!is_operator_name(name));
        },
        Some(NodeView::Call(call)) => {
            if call.callee < m.len() && m[call.callee as int] matches Some(
                NodeView::Operator(op),
            ) {
                let op = m[call.callee as int]->Some_0->Operator_0;
                let a = tree_of(m, call.args[0].1, f)->Some_0;
                let b = tree_of(m, call.args[1].1, f)->Some_0;
                assert(t == Tree::Bin(op, Box::new(a), Box::new(b)));
                assert(readable(a) && readable(b));
                lemma_tree_prints(m, call.args[0].1, f);
                lemma_tree_prints(m, call.args[1].1, f);
                let last = printed_args(m, call.args, 2, 2, f);
                let second = printed_args(m, call.args, 1, 1, f);
                let all = printed_args(m, call.args, 0, 0, f);
                assert(last.texts =~= Seq::<Seq<char>>::empty());
                assert(second.texts =~= seq![operand(b)]);
                assert(all.texts =~= seq![operand(a), operand(b)]);
                assert(all.positional);
                assert(all.texts.drop_last() =~= seq![operand(a)]);
                assert(joined(all.texts.drop_last(), op.token_text()) == operand(a));
                assert(joined(all.texts, op.token_text()) =~= operand(a) + op.token_text()
                    + operand(b));
                let callee = printed(m, call.callee, f);
                assert(f > 0) by {
                    assert(tree_of(m, call.args[0].1, f) is Some);
                }
                assert(callee == piece(op.token_text(), false, true));
                assert(text(t) =~= operand(a) + op.token_text() + operand(b));
                assert(printed(m, id, fuel).text =~= Seq::<char>::empty() + joined(
                    all.texts,
                    op.token_text(),
                ));
                assert(printed(m, id, fuel).text =~= text(t));
            } else {
                let callee = tree_of(m, call.callee, f)->Some_0;
                let args = trees_of(m, call.args, 0, f)->Some_0;
                assert(t == Tree::App(Box::new(callee), args));
                assert(readable(callee));
                lemma_readable_call(callee, args);
                lemma_tree_prints(m, call.callee, f);
                lemma_trees_print(m, call.args, 0, f);
                lemma_joined(args, 0);
                let shown = printed_args(m, call.args, 0, 0, f);
                assert(shown.texts =~= operands(args, 0));
                assert(printed(m, id, fuel).text =~= text(t));
            }
        },
        _ => {},
    }
}

/// Arguments that stand for trees that read as they print are printed as
/// positional arguments, each as the text of its tree.
pub proof fn lemma_trees_print(m: Model, args: Seq<(Seq<char>, nat)>, from: nat, fuel: nat)
    requires
        trees_of(m, args, from, fuel) is Some,
        forall|i: int|
            0 <= i < trees_of(m, args, from, fuel)->Some_0.len() ==> readable(
                #[trigger] trees_of(m, args, from, fuel)->Some_0[i],
            ),
    ensures
        trees_of(m, args, from, fuel)->Some_0.len() == (if from <= args.len() {
            args.len() - from
        } else {
            0
        }),
        printed_args(m, args, from, from, fuel) == (PrintedArgs {
            texts: operands(trees_of(m, args, from, fuel)->Some_0, 0),
            positional: true,
        }),
    decreases fuel, 1 + args.len() - from,
{
    let ts = trees_of(m, args, from, fuel)->Some_0;
    if from >= args.len() {
        assert(operands(ts, 0) =~= Seq::<Seq<char>>::empty());
    } else {
        let first = tree_of(m, args[from as int].1, fuel)->Some_0;
        let rest = trees_of(m, args, from + 1, fuel)->Some_0;
        assert(ts == seq![first] + rest);
        assert(ts[0] == first);
        assert(readable(first));
        assert forall|i: int| 0 <= i < rest.len() implies readable(#[trigger] rest[i]) by {
            assert(ts[i + 1] == rest[i]);
        }
        lemma_tree_prints(m, args[from as int].1, fuel);
        lemma_trees_print(m, args, from + 1, fuel);
        assert(seq![operand(first)] + operands(rest, 0) =~= operands(ts, 0)) by {
            assert forall|i: int| 0 <= i < ts.len() implies (seq![operand(first)] + operands(
                rest,
                0,
            ))[i] == operands(ts, 0)[i] by {
                if i > 0 {
                    assert(ts[i] == rest[i - 1]);
                }
            }
        }
    }
}

/// The nodes that the parser builds of a tree stand for that tree.
pub proof fn lemma_builds_tree(t: Tree, base: nat, m: Model, fuel: nat)
    requires
        readable(t),
        holds(m, base, build(t, base).nodes),
        fuel >= build(t, base).nodes.len(),
    ensures
        tree_of(m, build(t, base).root, fuel) == Some(t),
    decreases t, 0nat,
{
    lemma_build_root(t, base);
    let built = build(t, base);
    lemma_holds_at(m, base, built.nodes, built.nodes.len() - 1);
    let f = (fuel - 1) as nat;
    match t {
        Tree::Int(v) => {
            assert(m[base as int] == Some(NodeView::I64(v)));
            assert(tree_of(m, base, fuel) == Some(t));
        },
        Tree::Sym(name) => {
            assert(m[base as int] == Some(NodeView::Symbol(name)));
            assert(tree_of(m, base, fuel) == Some(t));
        },
        Tree::Bin(op, a, b) => {
            let left = build(*a, base);
            let operator = base + left.nodes.len();
            let right = build(*b, operator + 1);
            let one = seq![Some(NodeView::Operator(op))];
            let items = seq![("arg_0"@, left.root), ("arg_1"@, right.root)];
            let call = seq![Some(call_node(operator, items))];
            lemma_build_root(*a, base);
            lemma_build_root(*b, operator + 1);
            assert(built.nodes == ((left.nodes + one) + right.nodes) + call);
            lemma_holds_parts(m, base, (left.nodes + one) + right.nodes, call);
            lemma_holds_parts(m, base, left.nodes + one, right.nodes);
            lemma_holds_parts(m, base, left.nodes, one);
            lemma_holds_at(m, operator, one, 0);
            assert((left.nodes + one).len() == left.nodes.len() + 1);
            lemma_builds_tree(*a, base, m, f);
            lemma_builds_tree(*b, operator + 1, m, f);
            lemma_positional_names();
            assert(m[operator as int] == Some(NodeView::Operator(op)));
            assert(m[built.root as int] == Some(call_node(operator, items)));
            assert(call_node(operator, items) matches NodeView::Call(c) && c.callee == operator
                && c.args == items);
            assert(items[0].1 == left.root && items[1].1 == right.root);
            assert(tree_of(m, left.root, f) == Some(*a));
            assert(tree_of(m, right.root, f) == Some(*b));
            assert(Tree::Bin(op, Box::new(*a), Box::new(*b)) == t);
            assert(tree_of(m, built.root, fuel) == Some(t));
        },
        Tree::App(callee, args) => {
            let head = build(*callee, base);
            let rest = build_list(args, 0, base + head.nodes.len());
            let call = seq![Some(call_node(head.root, rest.items))];
            lemma_build_root(*callee, base);
            assert(built.nodes == (head.nodes + rest.nodes) + call);
            lemma_holds_parts(m, base, head.nodes + rest.nodes, call);
            lemma_holds_parts(m, base, head.nodes, rest.nodes);
            lemma_builds_tree(*callee, base, m, f);
            lemma_builds_trees(args, 0, base + head.nodes.len(), m, f);
            lemma_build_list_len(args, 0, base + head.nodes.len());
            assert(rest.items.skip(0) =~= rest.items);
            assert(args.skip(0) =~= args);
            lemma_root_is_no_operator(*callee, base, m);
            assert(m[built.root as int] == Some(call_node(head.root, rest.items)));
            assert(call_node(head.root, rest.items) matches NodeView::Call(c) && c.callee
                == head.root && c.args == rest.items);
            assert(tree_of(m, head.root, f) == Some(*callee));
            assert(trees_of(m, rest.items, 0, f) == Some(args));
            assert(Tree::App(Box::new(*callee), args) == t);
            assert(tree_of(m, built.root, fuel) == Some(t));
        },
    }
}

/// The root of a tree that the parser builds is no operator node.
pub proof fn lemma_root_is_no_operator(t: Tree, base: nat, m: Model)
    requires
        holds(m, base, build(t, base).nodes),
    ensures
        build(t, base).root < m.len(),
        !(m[build(t, base).root as int] matches Some(NodeView::Operator(_))),
{
    lemma_build_root(t, base);
    let built = build(t, base);
    lemma_holds_at(m, base, built.nodes, built.nodes.len() - 1);
    match t {
        Tree::Bin(op, a, b) => {},
        Tree::App(callee, args) => {},
        _ => {},
    }
}

/// The nodes that the parser builds of a list of arguments stand for the
/// arguments.
pub proof fn lemma_builds_trees(args: Seq<Tree>, from: nat, base: nat, m: Model, fuel: nat)
    requires
        from <= args.len(),
        forall|i: int| 0 <= i < args.len() ==> readable(#[trigger] args[i]),
        holds(m, base, build_list(args, from, base).nodes),
        fuel >= build_list(args, from, base).nodes.len(),
        fuel > 0 || from == args.len(),
    ensures
        forall|whole: Seq<(Seq<char>, nat)>|
            #![trigger trees_of(m, whole, from, fuel)]
            whole.len() == args.len() && whole.skip(from as int) == build_list(
                args,
                from,
                base,
            ).items ==> trees_of(m, whole, from, fuel) == Some(args.skip(from as int)),
    decreases args, args.len() - from,
{
    let built = build_list(args, from, base);
    assert forall|whole: Seq<(Seq<char>, nat)>|
        #![trigger trees_of(m, whole, from, fuel)]
        whole.len() == args.len() && whole.skip(from as int) == built.items implies trees_of(
        m,
        whole,
        from,
        fuel,
    ) == Some(args.skip(from as int)) by {
        if from >= args.len() {
            assert(args.skip(from as int) =~= Seq::<Tree>::empty());
        } else {
            let first = build(args[from as int], base);
            let rest = build_list(args, from + 1, base + first.nodes.len());
            lemma_holds_parts(m, base, first.nodes, rest.nodes);
            lemma_builds_tree(args[from as int], base, m, fuel);
            lemma_builds_trees(args, from + 1, base + first.nodes.len(), m, fuel);
            assert(whole[from as int] == whole.skip(from as int)[0]);
            assert(whole.skip(from as int)[0] == (positional_name(from), first.root));
            assert(whole.skip((from + 1) as int) =~= whole.skip(from as int).skip(1));
            assert(whole.skip(from as int).skip(1) =~= rest.items);
            assert(seq![args[from as int]] + args.skip((from + 1) as int) =~= args.skip(
                from as int,
            ));
            assert(whole[from as int].0 == positional_name(from));
            assert(tree_of(m, whole[from as int].1, fuel) == Some(args[from as int]));
            assert(trees_of(m, whole, from + 1, fuel) == Some(args.skip((from + 1) as int)));
        }
    }
}

/// A program reads as it prints. Where the node `id` of a store `m` stands
/// for a tree of constants that are not negative, of symbols that are
/// identifiers, of operators between two operands and of calls whose
/// arguments are given by position, the parser reads the printed text of
/// the node to its end, and what it makes of the text, in whatever store,
/// stands for the same tree and prints as the same text.
pub proof fn lemma_round_trip(m: Model, id: nat, into: Model)
    requires
        tree_of(m, id, m.len()) is Some,
        readable(tree_of(m, id, m.len())->Some_0),
    ensures
        ({
            let shown = crate::pretty_printer::pretty_text(m, id);
            let read = p_program(shown, into.len());
            let after = into + read.added;
            &&& read.result matches Ok((end, root)) && end == shown.len() && tree_of(
                after,
                root,
                after.len(),
            ) == tree_of(m, id, m.len()) && crate::pretty_printer::pretty_text(after, root)
                == shown
        }),
{
    let t = tree_of(m, id, m.len())->Some_0;
    lemma_tree_prints(m, id, m.len());
    let shown = crate::pretty_printer::pretty_text(m, id);
    assert(shown == text(t));
    let base = into.len();
    lemma_reads_program(t, base);
    let built = build(t, base);
    let after = into + built.nodes;
    assert(after.subrange(base as int, (base + built.nodes.len()) as int) =~= built.nodes);
    lemma_builds_tree(t, base, after, after.len());
    lemma_tree_prints(after, built.root, after.len());
}

} // verus!

use crate::compiler_context::{CompilerContext, Model, NodeStore, StoreError, StoreModel};
use crate::error::{ErrView, ErrorKind, IntErrorKind, SteelErr};
use crate::nodes::{Call, NodeKind, NodeView, Operator, Symbol};
use crate::text::{chars_of, string_from, string_of};
use crate::typed_index::Handle;
use vstd::prelude::*;
use vstd::string::*;

verus! {

pub type Precedence = i32;

pub const MIN_PRECENDENCE: Precedence = -2147483648;

pub const INIT_PRECENDENCE: Precedence = -2147483648;

pub const MUL_PRECENDENCE: Precedence = 2;

pub const PLUS_PRECENDENCE: Precedence = 1;

/// The classes of character that the lexical layer tells apart.
#[derive(Copy, Clone, Debug, PartialEq, Eq, Structural)]
pub enum Class {
    Space,
    Digit,
    Identifier,
}

pub open spec fn is_space(c: char) -> bool {
    c == ' ' || c == '\t' || c == '\r' || c == '\n'
}

pub open spec fn is_digit(c: char) -> bool {
    '0' <= c <= '9'
}

pub open spec fn is_alpha(c: char) -> bool {
    ('a' <= c <= 'z') || ('A' <= c <= 'Z')
}

/// Whether `c` may stand in an identifier after its first character.
pub open spec fn is_identifier_tail(c: char) -> bool {
    is_alpha(c) || is_digit(c) || c == '_'
}

pub open spec fn in_class(class: Class, c: char) -> bool {
    match class {
        Class::Space => is_space(c),
        Class::Digit => is_digit(c),
        Class::Identifier => is_identifier_tail(c),
    }
}

/// The end of the longest run of characters of `class` that starts at `pos`.
pub open spec fn run_end(s: Seq<char>, pos: int, class: Class) -> int
    decreases s.len() - pos,
{
    if pos < 0 || pos >= s.len() {
        pos
    } else if in_class(class, s[pos]) {
        run_end(s, pos + 1, class)
    } else {
        pos
    }
}

pub proof fn run_members(s: Seq<char>, pos: int, class: Class)
    requires
        0 <= pos <= s.len(),
    ensures
        forall|k: int| pos <= k < run_end(s, pos, class) ==> in_class(class, #[trigger] s[k]),
    decreases s.len() - pos,
{
    if pos < s.len() && in_class(class, s[pos]) {
        run_members(s, pos + 1, class);
    }
}

/// Whether `lit` stands in `s` at `pos`.
pub open spec fn has_at(s: Seq<char>, pos: int, lit: Seq<char>) -> bool {
    0 <= pos && pos + lit.len() <= s.len() && s.subrange(pos, pos + lit.len()) == lit
}

/// A parser that could not start: the lexical layer's own error.
pub open spec fn lexical_error(s: Seq<char>, pos: int, code: ErrorKind) -> ErrView {
    ErrView::ParserError { input: s.skip(pos), code }
}

/// Whitespace, then `lit`: the position after `lit`, or the error that
/// names it.
pub open spec fn spec_tag(s: Seq<char>, pos: int, lit: Seq<char>) -> Result<int, ErrView> {
    let p = run_end(s, pos, Class::Space);
    if has_at(s, p, lit) {
        Ok(p + lit.len())
    } else {
        Err(ErrView::ErrorExpected(Box::new(lexical_error(s, p, ErrorKind::Tag)), lit))
    }
}

/// An identifier at `pos`: a letter or an underscore, then letters, digits
/// and underscores.
pub open spec fn spec_identifier(s: Seq<char>, pos: int) -> Result<(int, Seq<char>), ErrView> {
    if 0 <= pos < s.len() && (is_alpha(s[pos]) || s[pos] == '_') {
        let end = run_end(s, pos + 1, Class::Identifier);
        Ok((end, s.subrange(pos, end)))
    } else {
        Err(
            ErrView::Multi(
                Box::new(lexical_error(s, pos, ErrorKind::Alt)),
                Box::new(
                    ErrView::ErrorExpected(
                        Box::new(
                            lexical_error(s, run_end(s, pos, Class::Space), ErrorKind::Tag),
                        ),
                        "_"@,
                    ),
                ),
            ),
        )
    }
}

/// A name and an equals sign, each after optional whitespace.
pub open spec fn spec_binding(s: Seq<char>, pos: int) -> Result<(int, Seq<char>), ErrView> {
    match spec_identifier(s, run_end(s, pos, Class::Space)) {
        Ok((q, name)) => match spec_tag(s, q, "="@) {
            Ok(end) => Ok((end, name)),
            Err(e) => Err(e),
        },
        Err(e) => Err(e),
    }
}

/// The number that the decimal digits `s[from..to]` stand for.
pub open spec fn digits_value(s: Seq<char>, from: int, to: int) -> nat
    decreases to - from,
{
    if to <= from {
        0
    } else {
        digits_value(s, from, to - 1) * 10 + (s[to - 1] as nat - '0' as nat) as nat
    }
}

/// An optionally signed decimal integer. Whitespace may stand before the
/// sign, or before the digits where there is no sign.
pub open spec fn spec_number(s: Seq<char>, pos: int) -> Result<(int, i64), ErrView> {
    let p = run_end(s, pos, Class::Space);
    let negative = has_at(s, p, "-"@);
    let start = if has_at(s, p, "+"@) || negative {
        p + 1
    } else {
        p
    };
    let end = run_end(s, start, Class::Digit);
    if end == start {
        Err(lexical_error(s, start, ErrorKind::TakeWhile1))
    } else if digits_value(s, start, end) > i64::MAX {
        Err(ErrView::MalformedInteger(s.skip(start), IntErrorKind::PosOverflow))
    } else if negative {
        Ok((end, (-(digits_value(s, start, end) as int)) as i64))
    } else {
        Ok((end, digits_value(s, start, end) as i64))
    }
}

pub open spec fn precedence_of(op: Operator) -> Precedence {
    match op {
        Operator::Add => PLUS_PRECENDENCE,
        Operator::Sub => PLUS_PRECENDENCE,
        Operator::Mul => MUL_PRECENDENCE,
        Operator::Div => MUL_PRECENDENCE,
    }
}

/// The operator that the character `c` is the token of.
pub open spec fn operator_of(c: char) -> Option<Operator> {
    if c == '+' {
        Some(Operator::Add)
    } else if c == '-' {
        Some(Operator::Sub)
    } else if c == '*' {
        Some(Operator::Mul)
    } else if c == '/' {
        Some(Operator::Div)
    } else {
        None
    }
}

/// An operator token right at `pos`, of a precedence no lower than
/// `min_prec`.
pub open spec fn spec_operator(s: Seq<char>, pos: int, min_prec: Precedence) -> Result<
    (int, Operator),
    ErrView,
> {
    if 0 <= pos < s.len() && operator_of(s[pos]) is Some {
        let op = operator_of(s[pos])->Some_0;
        if precedence_of(op) < min_prec {
            Err(ErrView::PrecedenceError { precendence: precedence_of(op) })
        } else {
            Ok((pos + 1, op))
        }
    } else {
        Err(ErrView::MalformedExpression(s.skip(pos), "operator"@))
    }
}

/// Scans the run of characters of `class` that starts at `pos`.
fn scan(chars: &Vec<char>, pos: usize, class: Class) -> (end: usize)
    requires
        pos <= chars@.len(),
    ensures
        end == run_end(chars@, pos as int, class),
        pos <= end <= chars@.len(),
{
    let mut i: usize = pos;
    while i < chars.len() && matches_class(class, chars[i])
        invariant
            pos <= i <= chars@.len(),
            run_end(chars@, i as int, class) == run_end(chars@, pos as int, class),
        decreases chars@.len() - i,
    {
        i += 1;
    }
    i
}

fn matches_class(class: Class, c: char) -> (r: bool)
    ensures
        r == in_class(class, c),
{
    match class {
        Class::Space => c == ' ' || c == '\t' || c == '\r' || c == '\n',
        Class::Digit => '0' <= c && c <= '9',
        Class::Identifier => is_identifier_char(c),
    }
}

fn is_letter(c: char) -> (r: bool)
    ensures
        r == is_alpha(c),
{
    ('a' <= c && c <= 'z') || ('A' <= c && c <= 'Z')
}

fn is_identifier_char(c: char) -> (r: bool)
    ensures
        r == is_identifier_tail(c),
{
    is_letter(c) || ('0' <= c && c <= '9') || c == '_'
}

/// Whether the characters of `lit` stand in `chars` at `pos`.
fn stands_at(chars: &Vec<char>, pos: usize, lit: &Vec<char>) -> (r: bool)
    requires
        pos <= chars@.len(),
    ensures
        r == has_at(chars@, pos as int, lit@),
{
    let len = chars.len();
    if lit.len() > len - pos {
        return false;
    }
    let mut i: usize = 0;
    while i < lit.len()
        invariant
            i <= lit@.len(),
            pos + lit@.len() <= chars@.len() == len,
            forall|k: int| 0 <= k < i ==> chars@[pos + k] == lit@[k],
        decreases lit@.len() - i,
    {
        if chars[pos + i] != lit[i] {
            assert(chars@.subrange(pos as int, pos + lit@.len())[i as int] != lit@[i as int]);
            return false;
        }
        i += 1;
    }
    assert(chars@.subrange(pos as int, pos + lit@.len()) =~= lit@);
    true
}

/// Whitespace, then `raw`.
fn tag_at(chars: &Vec<char>, pos: usize, raw: &str) -> (r: Result<usize, SteelErr>)
    requires
        pos <= chars@.len(),
    ensures
        match r {
            Ok(end) => spec_tag(chars@, pos as int, raw@) == Ok::<int, ErrView>(end as int) && pos
                + raw@.len() <= end <= chars@.len(),
            Err(e) => spec_tag(chars@, pos as int, raw@) == Err::<int, ErrView>(e@),
        },
{
    let p = scan(chars, pos, Class::Space);
    let lit = chars_of(raw);
    let len = chars.len();
    proof {
        reveal_with_fuel(crate::error::view_of, 3);
    }
    if stands_at(chars, p, &lit) {
        Ok(p + lit.len())
    } else {
        Err(
            SteelErr::ErrorExpected(
                Box::new(
                    SteelErr::ParserError { input: string_from(chars, p), code: ErrorKind::Tag },
                ),
                String::from_str(raw),
            ),
        )
    }
}

fn identifier_at(chars: &Vec<char>, pos: usize) -> (r: Result<(usize, String), SteelErr>)
    requires
        pos <= chars@.len(),
    ensures
        match r {
            Ok((end, name)) => spec_identifier(chars@, pos as int) == Ok::<
                (int, Seq<char>),
                ErrView,
            >((end as int, name@)) && pos < end <= chars@.len(),
            Err(e) => spec_identifier(chars@, pos as int) == Err::<(int, Seq<char>), ErrView>(e@),
        },
{
    proof {
        reveal_with_fuel(crate::error::view_of, 4);
    }
    if pos < chars.len() && (is_letter(chars[pos]) || chars[pos] == '_') {
        let end = scan(chars, pos + 1, Class::Identifier);
        let mut name: Vec<char> = Vec::new();
        let mut i: usize = pos;
        while i < end
            invariant
                pos <= i <= end <= chars@.len(),
                name@ == chars@.subrange(pos as int, i as int),
            decreases end - i,
        {
            name.push(chars[i]);
            assert(chars@.subrange(pos as int, i as int).push(chars@[i as int])
                =~= chars@.subrange(pos as int, i + 1));
            i += 1;
        }
        Ok((end, string_of(&name)))
    } else {
        let p = scan(chars, pos, Class::Space);
        let underscore = String::from_str("_");
        assert(underscore@ == "_"@);
        Err(
            SteelErr::Multi(
                Box::new(
                    SteelErr::ParserError { input: string_from(chars, pos), code: ErrorKind::Alt },
                ),
                Box::new(
                    SteelErr::ErrorExpected(
                        Box::new(
                            SteelErr::ParserError {
                                input: string_from(chars, p),
                                code: ErrorKind::Tag,
                            },
                        ),
                        underscore,
                    ),
                ),
            ),
        )
    }
}

fn binding_at(chars: &Vec<char>, pos: usize) -> (r: Result<(usize, String), SteelErr>)
    requires
        pos <= chars@.len(),
    ensures
        match r {
            Ok((end, name)) => spec_binding(chars@, pos as int) == Ok::<
                (int, Seq<char>),
                ErrView,
            >((end as int, name@)) && pos < end <= chars@.len(),
            Err(e) => spec_binding(chars@, pos as int) == Err::<(int, Seq<char>), ErrView>(e@),
        },
{
    let p = scan(chars, pos, Class::Space);
    let (q, name) = match identifier_at(chars, p) {
        Ok(found) => found,
        Err(e) => {
            return Err(e);
        },
    };
    match tag_at(chars, q, "=") {
        Ok(end) => Ok((end, name)),
        Err(e) => Err(e),
    }
}

/// The value of a decimal digit.
fn digit_value(c: char) -> (d: u64)
    requires
        is_digit(c),
    ensures
        d == c as nat - '0' as nat,
        d <= 9,
{
    (c as u32 - '0' as u32) as u64
}

fn number_at(chars: &Vec<char>, pos: usize) -> (r: Result<(usize, i64), SteelErr>)
    requires
        pos <= chars@.len(),
    ensures
        match r {
            Ok((end, value)) => spec_number(chars@, pos as int) == Ok::<(int, i64), ErrView>(
                (end as int, value),
            ) && pos < end <= chars@.len(),
            Err(e) => spec_number(chars@, pos as int) == Err::<(int, i64), ErrView>(e@),
        },
{
    let p = scan(chars, pos, Class::Space);
    proof {
        reveal_strlit("-");
        reveal_strlit("+");
        assert(has_at(chars@, p as int, "-"@) <==> (p < chars@.len() && chars@[p as int] == '-')) by {
            if p < chars@.len() {
                assert(chars@.subrange(p as int, p + 1)[0] == chars@[p as int]);
                if chars@[p as int] == '-' {
                    assert(chars@.subrange(p as int, p + 1) =~= "-"@);
                }
            }
        }
        assert(has_at(chars@, p as int, "+"@) <==> (p < chars@.len() && chars@[p as int] == '+')) by {
            if p < chars@.len() {
                assert(chars@.subrange(p as int, p + 1)[0] == chars@[p as int]);
                if chars@[p as int] == '+' {
                    assert(chars@.subrange(p as int, p + 1) =~= "+"@);
                }
            }
        }
    }
    let negative = p < chars.len() && chars[p] == '-';
    let start = if p < chars.len() && (chars[p] == '+' || chars[p] == '-') {
        p + 1
    } else {
        p
    };
    let end = scan(chars, start, Class::Digit);
    proof {
        run_members(chars@, start as int, Class::Digit);
    }
    if end == start {
        return Err(
            SteelErr::ParserError { input: string_from(chars, start), code: ErrorKind::TakeWhile1 },
        );
    }
    let mut value: u64 = 0;
    let mut i: usize = start;
    while i < end
        invariant
            start <= i <= end <= chars@.len(),
            end == run_end(chars@, start as int, Class::Digit),
            value == digits_value(chars@, start as int, i as int),
            value <= i64::MAX,
            forall|k: int| start <= k < end ==> is_digit(#[trigger] chars@[k]),
            p == run_end(chars@, pos as int, Class::Space),
            start == (if has_at(chars@, p as int, "+"@) || has_at(chars@, p as int, "-"@) {
                p + 1
            } else {
                p as int
            }),
        decreases end - i,
    {
        assert(is_digit(chars@[i as int]));
        let d = digit_value(chars[i]);
        assert(digits_value(chars@, start as int, i + 1) == value * 10 + d);
        if value > (i64::MAX as u64 - d) / 10 {
            proof {
                let room = (i64::MAX as u64 - d) / 10;
                assert(i64::MAX as u64 - d < room * 10 + 10);
                assert(value * 10 + d > i64::MAX);
                lemma_digits_grow(chars@, start as int, i + 1, end as int);
            }
            return Err(
                SteelErr::MalformedInteger(string_from(chars, start), IntErrorKind::PosOverflow),
            );
        }
        value = value * 10 + d;
        i += 1;
    }
    if negative {
        Ok((end, -(value as i64)))
    } else {
        Ok((end, value as i64))
    }
}

/// More digits never make the number smaller.
proof fn lemma_digits_grow(s: Seq<char>, from: int, mid: int, to: int)
    requires
        from <= mid <= to,
        forall|k: int| from <= k < to ==> is_digit(#[trigger] s[k]),
    ensures
        digits_value(s, from, mid) <= digits_value(s, from, to),
    decreases to - mid,
{
    if mid < to {
        lemma_digits_grow(s, from, mid, to - 1);
        assert(is_digit(s[to - 1]));
    }
}

/// What a parse comes to: the nodes that it added to the store, in order,
/// and either the position after what was read together with what was
/// read, or an error. A parse that fails may still have added nodes.
pub struct Parsed<T> {
    pub added: Model,
    pub result: Result<(int, T), ErrView>,
}

/// A parse that added nothing and failed with `e`.
pub open spec fn failed<T>(e: ErrView) -> Parsed<T> {
    Parsed { added: Seq::empty(), result: Err(e) }
}

/// The parse `p`, after the nodes `before` were added.
pub open spec fn after_adding<T>(before: Model, p: Parsed<T>) -> Parsed<T> {
    Parsed { added: before + p.added, result: p.result }
}

/// The name of the positional argument number `n`.
pub open spec fn positional_name(n: nat) -> Seq<char> {
    "arg_"@ + crate::text::natural_text(n)
}

/// The end of the first line of `s` from `pos` on.
pub open spec fn line_end(s: Seq<char>, pos: int) -> int
    decreases s.len() - pos,
{
    if pos < 0 || pos >= s.len() || s[pos] == '\n' {
        pos
    } else {
        line_end(s, pos + 1)
    }
}

/// The error of a place where an expression should start and none does.
pub open spec fn no_expression(s: Seq<char>, pos: int) -> ErrView {
    if pos >= s.len() {
        ErrView::UnexpectedEndOfInput
    } else {
        ErrView::MalformedExpression(s.subrange(pos, line_end(s, pos)), "the end of the input"@)
    }
}

/// A list of arguments between parentheses.
pub open spec fn p_args(s: Seq<char>, pos: int, base: nat) -> Parsed<Seq<(Seq<char>, nat)>>
    decreases s.len() - pos, 1int,
{
    if pos < 0 || pos > s.len() {
        failed(ErrView::UnexpectedEndOfInput)
    } else {
        match spec_tag(s, pos, "("@) {
            Err(e) => failed(e),
            Ok(q) => if q <= pos || q > s.len() {
                failed(ErrView::UnexpectedEndOfInput)
            } else {
                let list = p_list(s, q, base, 0, true);
                match list.result {
                    Err(e) => Parsed { added: list.added, result: Err(e) },
                    Ok((end, items)) => match spec_tag(s, end, ")"@) {
                        Ok(after) => Parsed { added: list.added, result: Ok((after, items)) },
                        Err(e) => Parsed { added: list.added, result: Err(e) },
                    },
                }
            },
        }
    }
}

/// No argument read, and nothing added.
pub open spec fn no_more(pos: int) -> Parsed<Seq<(Seq<char>, nat)>> {
    Parsed { added: Seq::empty(), result: Ok((pos, Seq::empty())) }
}

/// The arguments of a list from `pos` on, separated by commas. The list
/// ends before the first place where no further argument can be read.
pub open spec fn p_list(s: Seq<char>, pos: int, base: nat, arg_num: nat, first: bool) -> Parsed<
    Seq<(Seq<char>, nat)>,
>
    decreases s.len() - pos, 7int,
{
    if pos < 0 || pos > s.len() {
        no_more(pos)
    } else {
        let start = if first {
            Ok(pos)
        } else {
            spec_tag(s, pos, ","@)
        };
        match start {
            Err(_) => no_more(pos),
            Ok(at) => if at < pos || at > s.len() {
                no_more(pos)
            } else {
                let item = p_item(s, at, base, arg_num);
                match item.result {
                    Err(_) => Parsed { added: item.added, result: Ok((pos, Seq::empty())) },
                    Ok((end, binding)) => if end <= pos || end > s.len() {
                        Parsed { added: item.added, result: Ok((pos, Seq::empty())) }
                    } else {
                        let next_num = if spec_binding(s, at) is Ok {
                            arg_num
                        } else {
                            arg_num + 1
                        };
                        let rest = p_list(
                            s,
                            end,
                            base + item.added.len() as nat,
                            next_num,
                            false,
                        );
                        Parsed {
                            added: item.added + rest.added,
                            result: with_front(seq![binding], rest.result),
                        }
                    },
                }
            },
        }
    }
}

/// One argument: an expression, under the name before an equals sign where
/// there is one, else under the next positional name.
pub open spec fn p_item(s: Seq<char>, pos: int, base: nat, arg_num: nat) -> Parsed<
    (Seq<char>, nat),
>
    decreases s.len() - pos, 6int,
{
    if pos < 0 || pos > s.len() {
        failed(ErrView::UnexpectedEndOfInput)
    } else {
        let (at, name) = match spec_binding(s, pos) {
            Ok((after, name)) => (after, name),
            Err(_) => (pos, positional_name(arg_num)),
        };
        if at < pos || at > s.len() {
            failed(ErrView::UnexpectedEndOfInput)
        } else {
            let value = p_expr(s, at, MIN_PRECENDENCE, base);
            match value.result {
                Ok((end, id)) => Parsed { added: value.added, result: Ok((end, (name, id))) },
                Err(e) => Parsed { added: value.added, result: Err(e) },
            }
        }
    }
}

/// An expression: an operand, then as many continuations as can be read
/// whose operators are of a precedence no lower than `min_prec`.
pub open spec fn p_expr(s: Seq<char>, pos: int, min_prec: Precedence, base: nat) -> Parsed<nat>
    decreases s.len() - pos, 5int,
{
    if pos < 0 || pos > s.len() {
        failed(ErrView::UnexpectedEndOfInput)
    } else {
        let operand = p_nud(s, pos, base);
        match operand.result {
            Err(e) => operand,
            Ok((at, left)) => if at < pos || at > s.len() {
                failed(ErrView::UnexpectedEndOfInput)
            } else {
                after_adding(
                    operand.added,
                    p_tail(s, at, left, min_prec, base + operand.added.len() as nat),
                )
            },
        }
    }
}

/// An operand: an expression in parentheses, a symbol with or without
/// arguments, an operator before its operand or alone, or a number.
pub open spec fn p_nud(s: Seq<char>, pos: int, base: nat) -> Parsed<nat>
    decreases s.len() - pos, 4int,
{
    let p = run_end(s, pos, Class::Space);
    if pos < 0 || pos > s.len() || p < pos || p > s.len() {
        failed(ErrView::UnexpectedEndOfInput)
    } else if p < s.len() && s[p] == '(' {
        let inner = p_expr(s, p + 1, MIN_PRECENDENCE, base);
        match inner.result {
            Err(e) => inner,
            Ok((at, id)) => match spec_tag(s, at, ")"@) {
                Ok(after) => Parsed { added: inner.added, result: Ok((after, id)) },
                Err(e) => Parsed { added: inner.added, result: Err(e) },
            },
        }
    } else if spec_identifier(s, p) is Ok {
        let (at, name) = spec_identifier(s, p)->Ok_0;
        if at <= pos || at > s.len() {
            failed(ErrView::UnexpectedEndOfInput)
        } else {
            p_symbol(s, at, name, base)
        }
    } else if p < s.len() && operator_of(s[p]) is Some {
        p_prefix(s, p + 1, operator_of(s[p])->Some_0, base)
    } else {
        match spec_number(s, p) {
            Ok((after, value)) => Parsed {
                added: seq![Some(NodeView::I64(value))],
                result: Ok((after, base)),
            },
            Err(_) => failed(no_expression(s, p)),
        }
    }
}

/// The continuations of the operand `left`, as many as can be read.
pub open spec fn p_tail(s: Seq<char>, pos: int, left: nat, min_prec: Precedence, base: nat)
    -> Parsed<nat>
    decreases s.len() - pos, 3int,
{
    if pos < 0 || pos > s.len() {
        failed(ErrView::UnexpectedEndOfInput)
    } else {
        let step = p_led(s, pos, left, min_prec, base);
        match step.result {
            Err(_) => Parsed { added: step.added, result: Ok((pos, left)) },
            Ok((at, joined)) => if at <= pos || at > s.len() {
                failed(ErrView::UnexpectedEndOfInput)
            } else {
                after_adding(
                    step.added,
                    p_tail(s, at, joined, min_prec, base + step.added.len() as nat),
                )
            },
        }
    }
}

/// One continuation of the operand `left`: a list of arguments, which makes
/// a call of `left`, or an operator and its right operand. The right
/// operand takes only operators that bind tighter than its own.
pub open spec fn p_led(s: Seq<char>, pos: int, left: nat, min_prec: Precedence, base: nat)
    -> Parsed<nat>
    decreases s.len() - pos, 2int,
{
    if pos < 0 || pos > s.len() {
        failed(ErrView::UnexpectedEndOfInput)
    } else {
        let args = p_args(s, pos, base);
        match args.result {
            Ok((after, items)) => Parsed {
                added: args.added + seq![Some(crate::nodes::call_node(left, items))],
                result: Ok((after, base + args.added.len() as nat)),
            },
            Err(_) => {
                let p = run_end(s, pos, Class::Space);
                match spec_operator(s, p, min_prec) {
                    Err(e) => Parsed { added: args.added, result: Err(e) },
                    Ok((at, op)) => if at <= pos || at > s.len() {
                        failed(ErrView::UnexpectedEndOfInput)
                    } else {
                        let operator = base + args.added.len() as nat;
                        let right = p_expr(s, at, (precedence_of(op) + 1) as i32, operator + 1);
                        let so_far = args.added + seq![Some(NodeView::Operator(op))]
                            + right.added;
                        match right.result {
                            Err(e) => Parsed { added: so_far, result: Err(e) },
                            Ok((after, id)) => Parsed {
                                added: so_far + seq![
                                    Some(
                                        crate::nodes::call_node(
                                            operator,
                                            seq![("arg_0"@, left), ("arg_1"@, id)],
                                        ),
                                    ),
                                ],
                                result: Ok((after, operator + 1 + right.added.len() as nat)),
                            },
                        }
                    },
                }
            },
        }
    }
}

/// What follows the first expression of a program: continuations, with
/// whitespace before each, up to the end of the text.
pub open spec fn p_rest(s: Seq<char>, pos: int, left: nat, base: nat) -> Parsed<nat>
    decreases s.len() - pos,
{
    let end = run_end(s, pos, Class::Space);
    if pos < 0 || pos > s.len() || end < pos {
        failed(ErrView::UnexpectedEndOfInput)
    } else if end >= s.len() {
        Parsed { added: Seq::empty(), result: Ok((end, left)) }
    } else {
        let step = p_led(s, end, left, INIT_PRECENDENCE, base);
        match step.result {
            Err(e) => step,
            Ok((at, joined)) => if at <= end || at > s.len() {
                failed(ErrView::UnexpectedEndOfInput)
            } else {
                after_adding(step.added, p_rest(s, at, joined, base + step.added.len() as nat))
            },
        }
    }
}

/// A whole program: one expression and its continuations, up to the end of
/// the text.
pub open spec fn p_program(s: Seq<char>, base: nat) -> Parsed<nat> {
    let whole = p_expr(s, 0, INIT_PRECENDENCE, base);
    match whole.result {
        Err(e) => whole,
        Ok((at, root)) => after_adding(
            whole.added,
            p_rest(s, at, root, base + whole.added.len() as nat),
        ),
    }
}

/// Whether the nodes `added`, which stand in a store from slot `base` on,
/// each refer only to slots before their own.
pub open spec fn well_founded(added: Model, base: nat) -> bool {
    forall|i: int|
        0 <= i < added.len() ==> (#[trigger] added[i]) is Some && added[i]->Some_0.refers_before(
            base + i as nat,
        )
}

/// Whether a parse that yields a node added only well-founded nodes and
/// yields, where it succeeds, a node that is in the store then.
pub open spec fn sound_node(p: Parsed<nat>, base: nat) -> bool {
    &&& well_founded(p.added, base)
    &&& p.result matches Ok((_, id)) ==> id < base + p.added.len()
}

/// Whether a parse that yields bindings added only well-founded nodes and
/// binds, where it succeeds, only nodes that are in the store then.
pub open spec fn sound_bindings(p: Parsed<Seq<(Seq<char>, nat)>>, base: nat) -> bool {
    &&& well_founded(p.added, base)
    &&& p.result matches Ok((_, items)) ==> forall|k: int|
        0 <= k < items.len() ==> (#[trigger] items[k]).1 < base + p.added.len()
}

proof fn lemma_well_founded_concat(a: Model, b: Model, base: nat)
    requires
        well_founded(a, base),
        well_founded(b, base + a.len()),
    ensures
        well_founded(a + b, base),
{
    assert forall|i: int| 0 <= i < (a + b).len() implies (#[trigger] (a + b)[i]) is Some && (a
        + b)[i]->Some_0.refers_before(base + i as nat) by {
        if i < a.len() {
            assert((a + b)[i] == a[i]);
        } else {
            assert((a + b)[i] == b[i - a.len()]);
        }
    }
}

/// The nodes that reading arguments adds are well-founded, and the
/// arguments are in the store.
pub proof fn lemma_args_sound(s: Seq<char>, pos: int, base: nat)
    ensures
        sound_bindings(p_args(s, pos, base), base),
    decreases s.len() - pos, 1int,
{
    if 0 <= pos <= s.len() {
        match spec_tag(s, pos, "("@) {
            Err(e) => {},
            Ok(q) => {
                if !(q <= pos || q > s.len()) {
                    lemma_list_sound(s, q, base, 0, true);
                }
            },
        }
    }
}

pub proof fn lemma_list_sound(s: Seq<char>, pos: int, base: nat, arg_num: nat, first: bool)
    ensures
        sound_bindings(p_list(s, pos, base, arg_num, first), base),
    decreases s.len() - pos, 7int,
{
    if 0 <= pos <= s.len() {
        let start = if first {
            Ok(pos)
        } else {
            spec_tag(s, pos, ","@)
        };
        match start {
            Err(_) => {},
            Ok(at) => {
                if !(at < pos || at > s.len()) {
                    lemma_item_sound(s, at, base, arg_num);
                    let item = p_item(s, at, base, arg_num);
                    match item.result {
                        Err(_) => {},
                        Ok((end, binding)) => {
                            if !(end <= pos || end > s.len()) {
                                let next_num = if spec_binding(s, at) is Ok {
                                    arg_num
                                } else {
                                    arg_num + 1
                                };
                                let rest = p_list(
                                    s,
                                    end,
                                    base + item.added.len() as nat,
                                    next_num,
                                    false,
                                );
                                lemma_list_sound(
                                    s,
                                    end,
                                    base + item.added.len() as nat,
                                    next_num,
                                    false,
                                );
                                lemma_well_founded_concat(item.added, rest.added, base);
                                match rest.result {
                                    Ok((_, items)) => {
                                        let all = seq![binding] + items;
                                        assert forall|k: int| 0 <= k < all.len() implies (
                                        #[trigger] all[k]).1 < base + (item.added
                                            + rest.added).len() by {
                                            if k > 0 {
                                                assert(all[k] == items[k - 1]);
                                            }
                                        }
                                    },
                                    Err(_) => {},
                                }
                            }
                        },
                    }
                }
            },
        }
    }
}

pub proof fn lemma_item_sound(s: Seq<char>, pos: int, base: nat, arg_num: nat)
    ensures
        well_founded(p_item(s, pos, base, arg_num).added, base),
        p_item(s, pos, base, arg_num).result matches Ok((_, binding)) ==> binding.1 < base
            + p_item(s, pos, base, arg_num).added.len(),
    decreases s.len() - pos, 6int,
{
    if 0 <= pos <= s.len() {
        let at = match spec_binding(s, pos) {
            Ok((after, name)) => after,
            Err(_) => pos,
        };
        if !(at < pos || at > s.len()) {
            lemma_expr_sound(s, at, MIN_PRECENDENCE, base);
        }
    }
}

/// The nodes that reading an expression adds are well-founded, and its
/// root is in the store.
pub proof fn lemma_expr_sound(s: Seq<char>, pos: int, min_prec: Precedence, base: nat)
    ensures
        sound_node(p_expr(s, pos, min_prec, base), base),
    decreases s.len() - pos, 5int,
{
    if 0 <= pos <= s.len() {
        lemma_nud_sound(s, pos, base);
        let operand = p_nud(s, pos, base);
        match operand.result {
            Err(e) => {},
            Ok((at, left)) => {
                if !(at < pos || at > s.len()) {
                    let tail = p_tail(s, at, left, min_prec, base + operand.added.len() as nat);
                    lemma_tail_sound(s, at, left, min_prec, base + operand.added.len() as nat);
                    lemma_well_founded_concat(operand.added, tail.added, base);
                }
            },
        }
    }
}

pub proof fn lemma_symbol_sound(s: Seq<char>, at: int, name: Seq<char>, base: nat)
    ensures
        sound_node(p_symbol(s, at, name, base), base),
    decreases s.len() - at, 3int,
{
    if 0 <= at <= s.len() {
        let symbol = seq![Some(NodeView::Symbol(name))];
        let args = p_args(s, at, base + 1);
        lemma_args_sound(s, at, base + 1);
        assert(well_founded(symbol, base));
        lemma_well_founded_concat(symbol, args.added, base);
        match args.result {
            Ok((after, items)) => {
                let at_call = (base + 1 + args.added.len()) as nat;
                crate::nodes::lemma_call_node_refers_before(base, items, at_call);
                let call = seq![Some(crate::nodes::call_node(base, items))];
                assert(well_founded(call, at_call));
                lemma_well_founded_concat(symbol + args.added, call, base);
            },
            Err(_) => {},
        }
    }
}

pub proof fn lemma_prefix_sound(s: Seq<char>, at: int, op: Operator, base: nat)
    ensures
        sound_node(p_prefix(s, at, op, base), base),
    decreases s.len() - at, 6int,
{
    if 0 <= at <= s.len() {
        let operator = seq![Some(NodeView::Operator(op))];
        let right = p_expr(s, at, MIN_PRECENDENCE, base + 1);
        lemma_expr_sound(s, at, MIN_PRECENDENCE, base + 1);
        assert(well_founded(operator, base));
        lemma_well_founded_concat(operator, right.added, base);
        match right.result {
            Ok((after, id)) => {
                let zero = (base + 1 + right.added.len()) as nat;
                let items = seq![("arg_0"@, zero), ("arg_1"@, id)];
                crate::nodes::lemma_call_node_refers_before(base, items, zero + 1);
                let last = seq![
                    Some(NodeView::I64(0)),
                    Some(crate::nodes::call_node(base, items)),
                ];
                assert(well_founded(last, zero));
                lemma_well_founded_concat(operator + right.added, last, base);
            },
            Err(_) => {},
        }
    }
}

pub proof fn lemma_nud_sound(s: Seq<char>, pos: int, base: nat)
    ensures
        sound_node(p_nud(s, pos, base), base),
    decreases s.len() - pos, 4int,
{
    let p = run_end(s, pos, Class::Space);
    if pos < 0 || pos > s.len() || p < pos || p > s.len() {
    } else if p < s.len() && s[p] == '(' {
        lemma_expr_sound(s, p + 1, MIN_PRECENDENCE, base);
    } else if spec_identifier(s, p) is Ok {
        let (at, name) = spec_identifier(s, p)->Ok_0;
        if !(at <= pos || at > s.len()) {
            lemma_symbol_sound(s, at, name, base);
        }
    } else if p < s.len() && operator_of(s[p]) is Some {
        lemma_prefix_sound(s, p + 1, operator_of(s[p])->Some_0, base);
    } else {
    }
}

pub proof fn lemma_tail_sound(s: Seq<char>, pos: int, left: nat, min_prec: Precedence, base: nat)
    requires
        left < base,
    ensures
        sound_node(p_tail(s, pos, left, min_prec, base), base),
    decreases s.len() - pos, 3int,
{
    if 0 <= pos <= s.len() {
        let step = p_led(s, pos, left, min_prec, base);
        lemma_led_sound(s, pos, left, min_prec, base);
        match step.result {
            Err(_) => {},
            Ok((at, joined)) => {
                if !(at <= pos || at > s.len()) {
                    let rest = p_tail(s, at, joined, min_prec, base + step.added.len() as nat);
                    lemma_tail_sound(s, at, joined, min_prec, base + step.added.len() as nat);
                    lemma_well_founded_concat(step.added, rest.added, base);
                }
            },
        }
    }
}

pub proof fn lemma_led_sound(s: Seq<char>, pos: int, left: nat, min_prec: Precedence, base: nat)
    requires
        left < base,
    ensures
        sound_node(p_led(s, pos, left, min_prec, base), base),
    decreases s.len() - pos, 2int,
{
    if 0 <= pos <= s.len() {
        let args = p_args(s, pos, base);
        lemma_args_sound(s, pos, base);
        match args.result {
            Ok((after, items)) => {
                let at_call = (base + args.added.len()) as nat;
                crate::nodes::lemma_call_node_refers_before(left, items, at_call);
                let call = seq![Some(crate::nodes::call_node(left, items))];
                assert(well_founded(call, at_call));
                lemma_well_founded_concat(args.added, call, base);
            },
            Err(_) => {
                let p = run_end(s, pos, Class::Space);
                match spec_operator(s, p, min_prec) {
                    Err(e) => {},
                    Ok((at, op)) => {
                        if !(at <= pos || at > s.len()) {
                            let operator = (base + args.added.len()) as nat;
                            let right = p_expr(
                                s,
                                at,
                                (precedence_of(op) + 1) as i32,
                                operator + 1,
                            );
                            lemma_expr_sound(s, at, (precedence_of(op) + 1) as i32, operator + 1);
                            let one = seq![Some(NodeView::Operator(op))];
                            assert(well_founded(one, operator));
                            lemma_well_founded_concat(args.added, one, base);
                            lemma_well_founded_concat(args.added + one, right.added, base);
                            match right.result {
                                Err(e) => {},
                                Ok((after, id)) => {
                                    let at_call = (operator + 1 + right.added.len()) as nat;
                                    let items = seq![("arg_0"@, left), ("arg_1"@, id)];
                                    crate::nodes::lemma_call_node_refers_before(
                                        operator,
                                        items,
                                        at_call,
                                    );
                                    let call = seq![
                                        Some(crate::nodes::call_node(operator, items)),
                                    ];
                                    assert(well_founded(call, at_call));
                                    lemma_well_founded_concat(
                                        args.added + one + right.added,
                                        call,
                                        base,
                                    );
                                },
                            }
                        }
                    },
                }
            },
        }
    }
}

pub proof fn lemma_rest_sound(s: Seq<char>, pos: int, left: nat, base: nat)
    requires
        left < base,
    ensures
        sound_node(p_rest(s, pos, left, base), base),
    decreases s.len() - pos,
{
    let end = run_end(s, pos, Class::Space);
    if pos < 0 || pos > s.len() || end < pos {
    } else if end >= s.len() {
    } else {
        let step = p_led(s, end, left, INIT_PRECENDENCE, base);
        lemma_led_sound(s, end, left, INIT_PRECENDENCE, base);
        match step.result {
            Err(e) => {},
            Ok((at, joined)) => {
                if !(at <= end || at > s.len()) {
                    let rest = p_rest(s, at, joined, base + step.added.len() as nat);
                    lemma_rest_sound(s, at, joined, base + step.added.len() as nat);
                    lemma_well_founded_concat(step.added, rest.added, base);
                }
            },
        }
    }
}

/// What the parser adds to a store refers only backwards: each call that
/// it makes is a call of a node made before it, on nodes made before it. So
/// a store that was grounded stays grounded, the parser makes no cycle, and
/// the root that it returns is in the store.
pub proof fn lemma_program_grounded(m: Model, s: Seq<char>)
    requires
        crate::compiler_context::grounded(m, 0),
    ensures
        crate::compiler_context::grounded(m + p_program(s, m.len()).added, 0),
        p_program(s, m.len()).result matches Ok((_, root)) ==> root < m.len() + p_program(
            s,
            m.len(),
        ).added.len(),
{
    let base = m.len();
    let whole = p_expr(s, 0, INIT_PRECENDENCE, base);
    lemma_expr_sound(s, 0, INIT_PRECENDENCE, base);
    match whole.result {
        Err(e) => {},
        Ok((at, root)) => {
            let rest = p_rest(s, at, root, base + whole.added.len() as nat);
            lemma_rest_sound(s, at, root, base + whole.added.len() as nat);
            lemma_well_founded_concat(whole.added, rest.added, base);
        },
    }
    let added = p_program(s, base).added;
    assert(well_founded(added, base));
    assert forall|i: int| 0 <= i < (m + added).len() implies (#[trigger] (m + added)[i]) is Some
        && (m + added)[i]->Some_0.refers_before(i as nat) by {
        if i < m.len() {
            assert((m + added)[i] == m[i]);
        } else {
            assert((m + added)[i] == added[i - m.len()]);
        }
    }
}

/// Whether the result `r` of a parse that yields a node is what `p` says.
pub open spec fn yields_node<ID: Handle>(
    r: Result<(usize, ID), SteelErr>,
    p: Result<(int, nat), ErrView>,
) -> bool {
    match r {
        Ok((end, id)) => p == Ok::<(int, nat), ErrView>((end as int, id.index())),
        Err(e) => p == Err::<(int, nat), ErrView>(e@),
    }
}

/// Whether the result `r` of a parse that yields bindings is what `p` says.
pub open spec fn yields_bindings<ID: Handle>(
    r: Result<(usize, Vec<(String, ID)>), SteelErr>,
    p: Result<(int, Seq<(Seq<char>, nat)>), ErrView>,
) -> bool {
    match r {
        Ok((end, items)) => p == Ok::<(int, Seq<(Seq<char>, nat)>), ErrView>(
            (end as int, crate::nodes::bindings_view(items@)),
        ),
        Err(e) => p == Err::<(int, Seq<(Seq<char>, nat)>), ErrView>(e@),
    }
}

/// The bindings `items` before what `p` yields.
pub open spec fn with_front(
    items: Seq<(Seq<char>, nat)>,
    p: Result<(int, Seq<(Seq<char>, nat)>), ErrView>,
) -> Result<(int, Seq<(Seq<char>, nat)>), ErrView> {
    match p {
        Ok((end, rest)) => Ok((end, items + rest)),
        Err(e) => Err(e),
    }
}

fn operator_at(chars: &Vec<char>, pos: usize, min_prec: Precedence) -> (r: Result<
    (usize, Operator),
    SteelErr,
>)
    requires
        pos <= chars@.len(),
    ensures
        match r {
            Ok((end, op)) => spec_operator(chars@, pos as int, min_prec) == Ok::<
                (int, Operator),
                ErrView,
            >((end as int, op)) && end == pos + 1 && end <= chars@.len(),
            Err(e) => spec_operator(chars@, pos as int, min_prec) == Err::<
                (int, Operator),
                ErrView,
            >(e@),
        },
{
    let found = if pos < chars.len() {
        let c = chars[pos];
        if c == '+' {
            Some((PLUS_PRECENDENCE, Operator::Add))
        } else if c == '-' {
            Some((PLUS_PRECENDENCE, Operator::Sub))
        } else if c == '*' {
            Some((MUL_PRECENDENCE, Operator::Mul))
        } else if c == '/' {
            Some((MUL_PRECENDENCE, Operator::Div))
        } else {
            None
        }
    } else {
        None
    };
    match found {
        Some((precendence, op)) => {
            if precendence < min_prec {
                Err(SteelErr::PrecedenceError { precendence })
            } else {
                Ok((pos + 1, op))
            }
        },
        None => {
            let expected = String::from_str("operator");
            assert(expected@ == "operator"@);
            Err(SteelErr::MalformedExpression(string_from(chars, pos), expected))
        },
    }
}

/// The name of the positional argument number `n`.
fn positional(n: usize) -> (r: String)
    ensures
        r@ == positional_name(n as nat),
{
    let mut out: Vec<char> = Vec::new();
    crate::text::push_text(&mut out, "arg_");
    crate::text::push_natural(&mut out, n as u64);
    assert(out@ =~= positional_name(n as nat));
    string_of(&out)
}

/// Reads one argument; see [`p_item`]. The flag says whether the argument
/// came with a name.
fn item_at<C: CompilerContext>(context: &mut C, chars: &Vec<char>, pos: usize, arg_num: usize)
    -> (r: Result<(usize, (String, C::ID), bool), SteelErr>)
    requires
        old(context).wf(),
        pos <= chars@.len(),
    ensures
        final(context).wf(),
        final(context).model() == old(context).model() + p_item(
            chars@,
            pos as int,
            old(context).model().len(),
            arg_num as nat,
        ).added,
        match r {
            Ok((end, binding, named)) => p_item(
                chars@,
                pos as int,
                old(context).model().len(),
                arg_num as nat,
            ).result == Ok::<(int, (Seq<char>, nat)), ErrView>(
                (end as int, (binding.0@, binding.1.index())),
            ) && pos < end <= chars@.len() && named == (spec_binding(chars@, pos as int) is Ok),
            Err(e) => p_item(
                chars@,
                pos as int,
                old(context).model().len(),
                arg_num as nat,
            ).result == Err::<(int, (Seq<char>, nat)), ErrView>(e@),
        },
    decreases chars@.len() - pos, 60int,
{
    let named = match binding_at(chars, pos) {
        Ok((after, name)) => Some((after, name)),
        Err(_) => None,
    };
    let (value_at, name, is_named) = match named {
        Some((after, name)) => (after, name, true),
        None => (pos, positional(arg_num), false),
    };
    let mut no_floor = INIT_PRECENDENCE;
    match expr_at(context, chars, value_at, &mut no_floor) {
        Ok((end, id)) => Ok((end, (name, id), is_named)),
        Err(e) => Err(e),
    }
}

/// Reads the arguments of a list; see [`p_list`].
#[verifier::rlimit(60)]
#[verifier::spinoff_prover]
fn list_at<C: CompilerContext>(context: &mut C, chars: &Vec<char>, start: usize) -> (r: (
    usize,
    Vec<(String, C::ID)>,
))
    requires
        old(context).wf(),
        start <= chars@.len(),
    ensures
        final(context).wf(),
        final(context).model() == old(context).model() + p_list(
            chars@,
            start as int,
            old(context).model().len(),
            0,
            true,
        ).added,
        p_list(chars@, start as int, old(context).model().len(), 0, true).result == Ok::<
            (int, Seq<(Seq<char>, nat)>),
            ErrView,
        >((r.0 as int, crate::nodes::bindings_view(r.1@))),
        start <= r.0 <= chars@.len(),
    decreases chars@.len() - start, 70int,
{
    let ghost s = chars@;
    let ghost base = context.model().len();
    let ghost total = p_list(s, start as int, base, 0, true);
    let ghost mut added: Model = Seq::empty();
    let mut items: Vec<(String, C::ID)> = Vec::new();
    let mut cur: usize = start;
    let mut arg_num: usize = 0;
    let mut first = true;
    assert(context.model() =~= old(context).model() + added);
    assert(added + total.added =~= total.added);
    assert(with_front(crate::nodes::bindings_view(items@), total.result) == total.result) by {
        match total.result {
            Ok((q, rest)) => {
                assert(crate::nodes::bindings_view(items@) + rest =~= rest);
            },
            Err(_) => {},
        }
    }
    loop
        invariant_except_break
            context.wf(),
            s == chars@,
            base == old(context).model().len(),
            start <= cur <= s.len(),
            arg_num <= cur - start,
            context.model() == old(context).model() + added,
            total.added == added + p_list(
                s,
                cur as int,
                base + added.len() as nat,
                arg_num as nat,
                first,
            ).added,
            total.result == with_front(
                crate::nodes::bindings_view(items@),
                p_list(s, cur as int, base + added.len() as nat, arg_num as nat, first).result,
            ),
        ensures
            context.wf(),
            start <= cur <= s.len(),
            context.model() == old(context).model() + total.added,
            total.result == Ok::<(int, Seq<(Seq<char>, nat)>), ErrView>(
                (cur as int, crate::nodes::bindings_view(items@)),
            ),
        decreases s.len() - cur, if first { 1int } else { 0int },
    {
        let ghost here = p_list(s, cur as int, base + added.len() as nat, arg_num as nat, first);
        let ghost shown = crate::nodes::bindings_view(items@);
        assert(shown + Seq::<(Seq<char>, nat)>::empty() =~= shown);
        let at = if first {
            cur
        } else {
            match tag_at(chars, cur, ",") {
                Ok(at) => at,
                Err(_) => {
                    assert(here == no_more(cur as int));
                    assert(added + here.added =~= added);
                    break ;
                },
            }
        };
        let ghost item = p_item(s, at as int, base + added.len() as nat, arg_num as nat);
        match item_at(context, chars, at, arg_num) {
            Ok((end, binding, named)) => {
                proof {
                    let next_num = if named {
                        arg_num as nat
                    } else {
                        (arg_num + 1) as nat
                    };
                    let rest = p_list(
                        s,
                        end as int,
                        base + added.len() as nat + item.added.len() as nat,
                        next_num,
                        false,
                    );
                    let one = seq![(binding.0@, binding.1.index())];
                    assert(here.added == item.added + rest.added);
                    assert(here.result == with_front(one, rest.result));
                    assert(added + here.added =~= (added + item.added) + rest.added);
                    assert(context.model() =~= old(context).model() + (added + item.added));
                    assert(crate::nodes::bindings_view(items@.push(binding)) =~= shown + one);
                    match rest.result {
                        Ok((q, more)) => {
                            assert(shown + (one + more) =~= (shown + one) + more);
                        },
                        Err(_) => {},
                    }
                    added = added + item.added;
                }
                items.push(binding);
                if !named {
                    arg_num += 1;
                }
                cur = end;
                first = false;
            },
            Err(_) => {
                proof {
                    assert(here.added == item.added);
                    assert(here.result == Ok::<(int, Seq<(Seq<char>, nat)>), ErrView>(
                        (cur as int, Seq::empty()),
                    ));
                    assert(context.model() =~= old(context).model() + (added + item.added));
                }
                break ;
            },
        }
    }
    (cur, items)
}

fn args_at<C: CompilerContext>(context: &mut C, chars: &Vec<char>, pos: usize) -> (r: Result<
    (usize, Vec<(String, C::ID)>),
    SteelErr,
>)
    requires
        old(context).wf(),
        pos <= chars@.len(),
    ensures
        final(context).wf(),
        final(context).model() == old(context).model() + p_args(
            chars@,
            pos as int,
            old(context).model().len(),
        ).added,
        yields_bindings(r, p_args(chars@, pos as int, old(context).model().len()).result),
        r matches Ok((end, _)) ==> pos < end <= chars@.len(),
    decreases chars@.len() - pos, 10int,
{
    proof {
        reveal_strlit("(");
    }
    let start = match tag_at(chars, pos, "(") {
        Ok(start) => start,
        Err(e) => {
            assert(context.model() =~= old(context).model() + Seq::<Option<NodeView>>::empty());
            return Err(e);
        },
    };
    assert("("@.len() == 1);
    assert(start > pos);
    let (end, items) = list_at(context, chars, start);
    match tag_at(chars, end, ")") {
        Ok(after) => Ok((after, items)),
        Err(e) => Err(e),
    }
}

/// Reads an expression; see [`p_expr`].
fn expr_at<C: CompilerContext>(
    context: &mut C,
    chars: &Vec<char>,
    pos: usize,
    min_prec: &mut Precedence,
) -> (r: Result<(usize, C::ID), SteelErr>)
    requires
        old(context).wf(),
        pos <= chars@.len(),
    ensures
        final(context).wf(),
        *final(min_prec) == *old(min_prec),
        final(context).model() == old(context).model() + p_expr(
            chars@,
            pos as int,
            *old(min_prec),
            old(context).model().len(),
        ).added,
        yields_node(
            r,
            p_expr(chars@, pos as int, *old(min_prec), old(context).model().len()).result,
        ),
        r matches Ok((end, _)) ==> pos < end <= chars@.len(),
    decreases chars@.len() - pos, 50int,
{
    let ghost s = chars@;
    let ghost base = context.model().len();
    let floor = *min_prec;
    let ghost operand = p_nud(s, pos as int, base);
    let (start, first) = match nud_at(context, chars, pos) {
        Ok(found) => found,
        Err(e) => {
            return Err(e);
        },
    };
    let ghost total = p_tail(s, start as int, first.index(), floor, base + operand.added.len() as nat);
    let ghost mut added: Model = Seq::empty();
    let mut cur = start;
    let mut left = first;
    assert(context.model() =~= old(context).model() + operand.added + added);
    assert(added + total.added =~= total.added);
    loop
        invariant_except_break
            context.wf(),
            s == chars@,
            pos < start <= cur <= s.len(),
            context.model() == old(context).model() + operand.added + added,
            total.added == added + p_tail(
                s,
                cur as int,
                left.index(),
                floor,
                base + operand.added.len() as nat + added.len() as nat,
            ).added,
            total.result == p_tail(
                s,
                cur as int,
                left.index(),
                floor,
                base + operand.added.len() as nat + added.len() as nat,
            ).result,
            base == old(context).model().len(),
        ensures
            context.wf(),
            start <= cur <= s.len(),
            context.model() == old(context).model() + operand.added + total.added,
            total.result == Ok::<(int, nat), ErrView>((cur as int, left.index())),
        decreases s.len() - cur,
    {
        let ghost here = p_tail(
            s,
            cur as int,
            left.index(),
            floor,
            base + operand.added.len() as nat + added.len() as nat,
        );
        let ghost step = p_led(
            s,
            cur as int,
            left.index(),
            floor,
            base + operand.added.len() as nat + added.len() as nat,
        );
        match led_at(context, chars, cur, left, floor) {
            Ok((end, joined)) => {
                proof {
                    let rest = p_tail(
                        s,
                        end as int,
                        joined.index(),
                        floor,
                        base + operand.added.len() as nat + added.len() as nat
                            + step.added.len() as nat,
                    );
                    assert(here.added == step.added + rest.added);
                    assert(added + here.added =~= (added + step.added) + rest.added);
                    assert(context.model() =~= old(context).model() + operand.added + (added
                        + step.added));
                    added = added + step.added;
                }
                cur = end;
                left = joined;
            },
            Err(_) => {
                proof {
                    assert(here.added == step.added);
                    assert(context.model() =~= old(context).model() + operand.added + (added
                        + step.added));
                }
                break ;
            },
        }
    }
    assert(context.model() =~= old(context).model() + (operand.added + total.added));
    Ok((cur, left))
}

/// The error of a place where an expression should start and none does.
fn no_expression_at(chars: &Vec<char>, p: usize) -> (e: SteelErr)
    requires
        p <= chars@.len(),
    ensures
        e@ == no_expression(chars@, p as int),
{
    if p >= chars.len() {
        SteelErr::UnexpectedEndOfInput
    } else {
        let mut end: usize = p;
        while end < chars.len() && chars[end] != '\n'
            invariant
                p <= end <= chars@.len(),
                line_end(chars@, end as int) == line_end(chars@, p as int),
            decreases chars@.len() - end,
        {
            end += 1;
        }
        let mut report: Vec<char> = Vec::new();
        let mut i: usize = p;
        while i < end
            invariant
                p <= i <= end <= chars@.len(),
                report@ == chars@.subrange(p as int, i as int),
            decreases end - i,
        {
            report.push(chars[i]);
            assert(chars@.subrange(p as int, i as int).push(chars@[i as int])
                =~= chars@.subrange(p as int, i + 1));
            i += 1;
        }
        let expected = String::from_str("the end of the input");
        assert(expected@ == "the end of the input"@);
        SteelErr::MalformedExpression(string_of(&report), expected)
    }
}

/// The operator whose token `c` is.
fn operator_for(c: char) -> (r: Option<Operator>)
    ensures
        r == operator_of(c),
{
    if c == '+' {
        Some(Operator::Add)
    } else if c == '-' {
        Some(Operator::Sub)
    } else if c == '*' {
        Some(Operator::Mul)
    } else if c == '/' {
        Some(Operator::Div)
    } else {
        None
    }
}

/// The call of the operator `operator` on the operands `left` and `right`,
/// under the names `arg_0` and `arg_1`.
fn binary_call<ID: Handle>(operator: ID, left: ID, right: ID) -> (call: Call<ID>)
    ensures
        call.node() == crate::nodes::call_node(
            operator.index(),
            seq![("arg_0"@, left.index()), ("arg_1"@, right.index())],
        ),
{
    let mut items: Vec<(String, ID)> = Vec::new();
    let left_name = String::from_str("arg_0");
    let right_name = String::from_str("arg_1");
    items.push((left_name, left));
    items.push((right_name, right));
    let call = Call::new(operator, items);
    proof {
        crate::nodes::lemma_new_call_node(call);
        assert(crate::nodes::bindings_view(call.args@) =~= seq![
            ("arg_0"@, left.index()),
            ("arg_1"@, right.index()),
        ]);
    }
    call
}

/// What an operand that starts with the symbol `name` comes to: the symbol
/// alone, or the call of it on the arguments that follow.
pub open spec fn p_symbol(s: Seq<char>, at: int, name: Seq<char>, base: nat) -> Parsed<nat>
    decreases s.len() - at, 3int,
{
    if at < 0 || at > s.len() {
        failed(ErrView::UnexpectedEndOfInput)
    } else {
        let symbol = seq![Some(NodeView::Symbol(name))];
        let args = p_args(s, at, base + 1);
        match args.result {
            Ok((after, items)) => Parsed {
                added: symbol + args.added + seq![Some(crate::nodes::call_node(base, items))],
                result: Ok((after, base + 1 + args.added.len() as nat)),
            },
            Err(_) => Parsed { added: symbol + args.added, result: Ok((at, base)) },
        }
    }
}

/// What an operand that starts with the operator `op` comes to: the
/// operator alone, or its call on zero and the expression that follows.
pub open spec fn p_prefix(s: Seq<char>, at: int, op: Operator, base: nat) -> Parsed<nat>
    decreases s.len() - at, 6int,
{
    if at < 0 || at > s.len() {
        failed(ErrView::UnexpectedEndOfInput)
    } else {
        let operator = seq![Some(NodeView::Operator(op))];
        let right = p_expr(s, at, MIN_PRECENDENCE, base + 1);
        match right.result {
            Ok((after, id)) => {
                let zero = base + 1 + right.added.len() as nat;
                Parsed {
                    added: operator + right.added + seq![
                        Some(NodeView::I64(0)),
                        Some(
                            crate::nodes::call_node(base, seq![("arg_0"@, zero), ("arg_1"@, id)]),
                        ),
                    ],
                    result: Ok((after, zero + 1)),
                }
            },
            Err(_) => Parsed { added: operator + right.added, result: Ok((at, base)) },
        }
    }
}

fn symbol_at<C: CompilerContext>(context: &mut C, chars: &Vec<char>, at: usize, name: String)
    -> (r: (usize, C::ID))
    requires
        old(context).wf(),
        0 < at <= chars@.len(),
    ensures
        final(context).wf(),
        final(context).model() == old(context).model() + p_symbol(
            chars@,
            at as int,
            name@,
            old(context).model().len(),
        ).added,
        p_symbol(chars@, at as int, name@, old(context).model().len()).result == Ok::<
            (int, nat),
            ErrView,
        >((r.0 as int, r.1.index())),
        at <= r.0 <= chars@.len(),
    decreases chars@.len() - at, 15int,
{
    let ghost args = p_args(chars@, at as int, old(context).model().len() + 1);
    let ghost shown = name@;
    let symbol = context.add(Symbol { name });
    match args_at(context, chars, at) {
        Ok((after, items)) => {
            let call = Call::new(symbol, items);
            proof {
                crate::nodes::lemma_new_call_node(call);
            }
            let id = context.add(call);
            assert(context.model() =~= old(context).model() + (seq![
                Some(NodeView::Symbol(shown)),
            ] + args.added + seq![Some(call.node())]));
            (after, id)
        },
        Err(_) => {
            assert(context.model() =~= old(context).model() + (seq![
                Some(NodeView::Symbol(shown)),
            ] + args.added));
            (at, symbol)
        },
    }
}

fn prefix_at<C: CompilerContext>(context: &mut C, chars: &Vec<char>, at: usize, op: Operator)
    -> (r: (usize, C::ID))
    requires
        old(context).wf(),
        0 < at <= chars@.len(),
    ensures
        final(context).wf(),
        final(context).model() == old(context).model() + p_prefix(
            chars@,
            at as int,
            op,
            old(context).model().len(),
        ).added,
        p_prefix(chars@, at as int, op, old(context).model().len()).result == Ok::<
            (int, nat),
            ErrView,
        >((r.0 as int, r.1.index())),
        at <= r.0 <= chars@.len(),
    decreases chars@.len() - at, 55int,
{
    let ghost right = p_expr(chars@, at as int, INIT_PRECENDENCE, old(context).model().len() + 1);
    let operator = context.add(op);
    let mut no_floor = INIT_PRECENDENCE;
    match expr_at(context, chars, at, &mut no_floor) {
        Ok((after, id)) => {
            let zero = context.add(0i64);
            let call = binary_call(operator, zero, id);
            let made = context.add(call);
            assert(context.model() =~= old(context).model() + (seq![
                Some(NodeView::Operator(op)),
            ] + right.added + seq![Some(NodeView::I64(0)), Some(call.node())]));
            (after, made)
        },
        Err(_) => {
            assert(context.model() =~= old(context).model() + (seq![
                Some(NodeView::Operator(op)),
            ] + right.added));
            (at, operator)
        },
    }
}

/// Reads an operand; see [`p_nud`].
fn nud_at<C: CompilerContext>(context: &mut C, chars: &Vec<char>, pos: usize) -> (r: Result<
    (usize, C::ID),
    SteelErr,
>)
    requires
        old(context).wf(),
        pos <= chars@.len(),
    ensures
        final(context).wf(),
        final(context).model() == old(context).model() + p_nud(
            chars@,
            pos as int,
            old(context).model().len(),
        ).added,
        yields_node(r, p_nud(chars@, pos as int, old(context).model().len()).result),
        r matches Ok((end, _)) ==> pos < end <= chars@.len(),
    decreases chars@.len() - pos, 40int,
{
    let ghost empty: Model = Seq::empty();
    let p = scan(chars, pos, Class::Space);
    if p < chars.len() && chars[p] == '(' {
        let mut no_floor = INIT_PRECENDENCE;
        let (at, wrapped) = match expr_at(context, chars, p + 1, &mut no_floor) {
            Ok(found) => found,
            Err(e) => {
                return Err(e);
            },
        };
        return match tag_at(chars, at, ")") {
            Ok(after) => Ok((after, wrapped)),
            Err(e) => Err(e),
        };
    }
    if let Ok((at, name)) = identifier_at(chars, p) {
        return Ok(symbol_at(context, chars, at, name));
    }
    if p < chars.len() {
        if let Some(op) = operator_for(chars[p]) {
            return Ok(prefix_at(context, chars, p + 1, op));
        }
    }
    if let Ok((after, value)) = number_at(chars, p) {
        let id = context.add(value);
        assert(context.model() =~= old(context).model() + seq![Some(NodeView::I64(value))]);
        return Ok((after, id));
    }
    assert(context.model() =~= old(context).model() + empty);
    Err(no_expression_at(chars, p))
}

/// Reads one continuation of `left`; see [`p_led`].
fn led_at<C: CompilerContext>(
    context: &mut C,
    chars: &Vec<char>,
    pos: usize,
    left: C::ID,
    min_prec: Precedence,
) -> (r: Result<(usize, C::ID), SteelErr>)
    requires
        old(context).wf(),
        pos <= chars@.len(),
    ensures
        final(context).wf(),
        final(context).model() == old(context).model() + p_led(
            chars@,
            pos as int,
            left.index(),
            min_prec,
            old(context).model().len(),
        ).added,
        yields_node(
            r,
            p_led(chars@, pos as int, left.index(), min_prec, old(context).model().len()).result,
        ),
        r matches Ok((end, _)) ==> pos < end <= chars@.len(),
    decreases chars@.len() - pos, 20int,
{
    let ghost s = chars@;
    let ghost base = context.model().len();
    let ghost args = p_args(s, pos as int, base);
    if let Ok((after, items)) = args_at(context, chars, pos) {
        let call = Call::new(left, items);
        proof {
            crate::nodes::lemma_new_call_node(call);
        }
        let id = context.add(call);
        assert(context.model() =~= old(context).model() + (args.added + seq![Some(call.node())]));
        return Ok((after, id));
    }
    let p = scan(chars, pos, Class::Space);
    let (at, op) = match operator_at(chars, p, min_prec) {
        Ok(found) => found,
        Err(e) => {
            return Err(e);
        },
    };
    let operator = context.add(op);
    let ghost right = p_expr(s, at as int, (precedence_of(op) + 1) as i32, base + args.added.len() as nat + 1);
    let mut floor: Precedence = match op {
        Operator::Add => PLUS_PRECENDENCE + 1,
        Operator::Sub => PLUS_PRECENDENCE + 1,
        Operator::Mul => MUL_PRECENDENCE + 1,
        Operator::Div => MUL_PRECENDENCE + 1,
    };
    let found = expr_at(context, chars, at, &mut floor);
    assert(context.model() =~= old(context).model() + (args.added + seq![
        Some(NodeView::Operator(op)),
    ] + right.added));
    let (after, id) = match found {
        Ok(found) => found,
        Err(e) => {
            return Err(e);
        },
    };
    let call = binary_call(operator, left, id);
    let made = context.add(call);
    assert(context.model() =~= old(context).model() + (args.added + seq![
        Some(NodeView::Operator(op)),
    ] + right.added + seq![Some(call.node())]));
    Ok((after, made))
}

/// The part of `input` from character `pos` on.
fn rest_of<'a>(input: &'a str, chars: &Vec<char>, pos: usize) -> (rest: &'a str)
    requires
        chars@ == input@,
        pos <= chars@.len(),
    ensures
        rest@ == input@.skip(pos as int),
{
    let rest = input.substring_char(pos, chars.len());
    assert(input@.subrange(pos as int, chars@.len() as int) =~= input@.skip(pos as int));
    rest
}

/// Reads an optionally signed decimal integer from the start of `input`.
/// Whitespace may stand before the sign, or before the digits where there
/// is no sign. Digits that are too many for an `i64` are an error.
pub fn number_i64_raw(input: &str) -> (r: Result<(&str, i64), SteelErr>)
    ensures
        match spec_number(input@, 0) {
            Ok((end, value)) => r matches Ok((rest, read)) && rest@ == input@.skip(end) && read
                == value,
            Err(e) => r matches Err(err) && err@ == e,
        },
{
    let chars = chars_of(input);
    match number_at(&chars, 0) {
        Ok((end, value)) => Ok((rest_of(input, &chars, end), value)),
        Err(e) => Err(e),
    }
}

/// Reads an integer as [`number_i64_raw`] does and stores it as a node.
pub fn number_i64<'source, ID: Handle, E: StoreError, C: NodeStore<ID, i64, E>>(
    context: &mut C,
    input: &'source str,
) -> (r: Result<(&'source str, ID), SteelErr>)
    requires
        old(context).wf(),
    ensures
        final(context).wf(),
        match spec_number(input@, 0) {
            Ok((end, value)) => r matches Ok((rest, id)) && rest@ == input@.skip(end)
                && id.index() == old(context).model().len() && final(context).model() == old(
                context,
            ).model().push(Some(NodeView::I64(value))),
            Err(e) => r matches Err(err) && err@ == e && final(context).model() == old(
                context,
            ).model(),
        },
{
    let (rest, value) = match number_i64_raw(input) {
        Ok(read) => read,
        Err(e) => {
            return Err(e);
        },
    };
    let id = context.add(value);
    Ok((rest, id))
}

/// Reads an identifier from the very start of `og_input`.
pub fn symbol_raw(og_input: &str) -> (r: Result<(&str, Symbol), SteelErr>)
    ensures
        match spec_identifier(og_input@, 0) {
            Ok((end, name)) => r matches Ok((rest, symbol)) && rest@ == og_input@.skip(end)
                && symbol@ == name,
            Err(e) => r matches Err(err) && err@ == e,
        },
{
    let chars = chars_of(og_input);
    match identifier_at(&chars, 0) {
        Ok((end, name)) => Ok((rest_of(og_input, &chars, end), Symbol { name })),
        Err(e) => Err(e),
    }
}

/// Reads the name of a named argument: an identifier and an equals sign,
/// each after optional whitespace. The store is not touched.
pub fn binding<'source, ID: Handle, E: StoreError, C: NodeStore<ID, Symbol, E>>(
    _context: &mut C,
    input: &'source str,
) -> (r: Result<(&'source str, String), SteelErr>)
    ensures
        *final(_context) == *old(_context),
        match spec_binding(input@, 0) {
            Ok((end, name)) => r matches Ok((rest, read)) && rest@ == input@.skip(end) && read@
                == name,
            Err(e) => r matches Err(err) && err@ == e,
        },
{
    let chars = chars_of(input);
    match binding_at(&chars, 0) {
        Ok((end, name)) => Ok((rest_of(input, &chars, end), name)),
        Err(e) => Err(e),
    }
}

/// Reads an identifier after optional whitespace and stores it as a symbol.
pub fn symbol<'source, ID: Handle, E: StoreError, C: NodeStore<ID, Symbol, E>>(
    context: &mut C,
    input: &'source str,
) -> (r: Result<(&'source str, ID), SteelErr>)
    requires
        old(context).wf(),
    ensures
        final(context).wf(),
        match spec_identifier(input@, run_end(input@, 0, Class::Space)) {
            Ok((end, name)) => r matches Ok((rest, id)) && rest@ == input@.skip(end)
                && id.index() == old(context).model().len() && final(context).model() == old(
                context,
            ).model().push(Some(NodeView::Symbol(name))),
            Err(e) => r matches Err(err) && err@ == e && final(context).model() == old(
                context,
            ).model(),
        },
{
    let chars = chars_of(input);
    let start = scan(&chars, 0, Class::Space);
    let (end, name) = match identifier_at(&chars, start) {
        Ok(read) => read,
        Err(e) => {
            return Err(e);
        },
    };
    let id = context.add(Symbol { name });
    Ok((rest_of(input, &chars, end), id))
}

/// Reads an operator token from the very start of `input`. An operator of a
/// precedence below `min_prec` is refused; any other raises `min_prec` to its
/// own precedence.
pub fn operator_raw<'source>(input: &'source str, min_prec: &mut Precedence) -> (r: Result<
    (&'source str, Operator),
    SteelErr,
>)
    ensures
        match spec_operator(input@, 0, *old(min_prec)) {
            Ok((end, op)) => r matches Ok((rest, read)) && rest@ == input@.skip(end) && read == op
                && *final(min_prec) == precedence_of(op),
            Err(e) => r matches Err(err) && err@ == e && *final(min_prec) == *old(min_prec),
        },
{
    let chars = chars_of(input);
    match operator_at(&chars, 0, *min_prec) {
        Ok((end, op)) => {
            *min_prec = match op {
                Operator::Add => PLUS_PRECENDENCE,
                Operator::Sub => PLUS_PRECENDENCE,
                Operator::Mul => MUL_PRECENDENCE,
                Operator::Div => MUL_PRECENDENCE,
            };
            Ok((rest_of(input, &chars, end), op))
        },
        Err(e) => Err(e),
    }
}

/// Reads an operator as [`operator_raw`] does and stores it as a node.
pub fn operator<'source, ID: Handle, E: StoreError, C: NodeStore<ID, Operator, E>>(
    context: &mut C,
    input: &'source str,
    min_prec: &mut Precedence,
) -> (r: Result<(&'source str, ID), SteelErr>)
    requires
        old(context).wf(),
    ensures
        final(context).wf(),
        match spec_operator(input@, 0, *old(min_prec)) {
            Ok((end, op)) => r matches Ok((rest, id)) && rest@ == input@.skip(end) && id.index()
                == old(context).model().len() && final(context).model() == old(
                context,
            ).model().push(Some(NodeView::Operator(op))) && *final(min_prec) == precedence_of(op),
            Err(e) => r matches Err(err) && err@ == e && final(context).model() == old(
                context,
            ).model() && *final(min_prec) == *old(min_prec),
        },
{
    let (rest, op) = match operator_raw(input, min_prec) {
        Ok(read) => read,
        Err(e) => {
            return Err(e);
        },
    };
    let id = context.add(op);
    Ok((rest, id))
}

/// Reads an expression from the start of `input` into the store: an
/// operand and its continuations, as far as the operators are of a
/// precedence no lower than `min_prec`. What is left of the input comes
/// back with the root of the expression. Nodes that were made on the way
/// stay in the store, also where the parse fails.
pub fn expr<'context, 'source: 'context, C: CompilerContext>(
    context: &'context mut C,
    input: &'source str,
    min_prec: &mut Precedence,
) -> (r: Result<(&'source str, C::ID), SteelErr>)
    requires
        old(context).wf(),
    ensures
        final(context).wf(),
        *final(min_prec) == *old(min_prec),
        final(context).model() == old(context).model() + p_expr(
            input@,
            0,
            *old(min_prec),
            old(context).model().len(),
        ).added,
        match p_expr(input@, 0, *old(min_prec), old(context).model().len()).result {
            Ok((end, root)) => r matches Ok((rest, id)) && rest@ == input@.skip(end) && id.index()
                == root,
            Err(e) => r matches Err(err) && err@ == e,
        },
{
    let chars = chars_of(input);
    match expr_at(context, &chars, 0, min_prec) {
        Ok((end, id)) => Ok((rest_of(input, &chars, end), id)),
        Err(e) => Err(e),
    }
}

/// Reads what follows the first expression of a program; see [`p_rest`].
#[verifier::rlimit(60)]
#[verifier::spinoff_prover]
fn rest_at<C: CompilerContext>(context: &mut C, chars: &Vec<char>, start: usize, first: C::ID)
    -> (r: Result<C::ID, SteelErr>)
    requires
        old(context).wf(),
        start <= chars@.len(),
    ensures
        final(context).wf(),
        final(context).model() == old(context).model() + p_rest(
            chars@,
            start as int,
            first.index(),
            old(context).model().len(),
        ).added,
        match r {
            Ok(root) => p_rest(
                chars@,
                start as int,
                first.index(),
                old(context).model().len(),
            ).result == Ok::<(int, nat), ErrView>((chars@.len() as int, root.index())),
            Err(e) => p_rest(
                chars@,
                start as int,
                first.index(),
                old(context).model().len(),
            ).result == Err::<(int, nat), ErrView>(e@),
        },
{
    let ghost s = chars@;
    let ghost base = context.model().len();
    let ghost total = p_rest(s, start as int, first.index(), base);
    let ghost mut added: Model = Seq::empty();
    let mut cur = start;
    let mut left = first;
    assert(context.model() =~= old(context).model() + added);
    assert(added + total.added =~= total.added);
    loop
        invariant_except_break
            context.wf(),
            s == chars@,
            base == old(context).model().len(),
            total == p_rest(s, start as int, first.index(), base),
            cur <= s.len(),
            context.model() == old(context).model() + added,
            total.added == added + p_rest(
                s,
                cur as int,
                left.index(),
                base + added.len() as nat,
            ).added,
            total.result == p_rest(s, cur as int, left.index(), base + added.len() as nat).result,
        ensures
            context.wf(),
            context.model() == old(context).model() + total.added,
            total.result == Ok::<(int, nat), ErrView>((s.len() as int, left.index())),
        decreases s.len() - cur,
    {
        let ghost here = p_rest(s, cur as int, left.index(), base + added.len() as nat);
        let end = scan(chars, cur, Class::Space);
        if end >= chars.len() {
            assert(here.added =~= Seq::<Option<NodeView>>::empty());
            assert(added + here.added =~= added);
            break ;
        }
        let ghost step = p_led(
            s,
            end as int,
            left.index(),
            INIT_PRECENDENCE,
            base + added.len() as nat,
        );
        match led_at(context, chars, end, left, INIT_PRECENDENCE) {
            Ok((at, joined)) => {
                proof {
                    let rest = p_rest(
                        s,
                        at as int,
                        joined.index(),
                        base + added.len() as nat + step.added.len() as nat,
                    );
                    assert(here == after_adding(step.added, rest));
                    assert(added + here.added =~= (added + step.added) + rest.added);
                    assert(context.model() =~= old(context).model() + (added + step.added));
                    added = added + step.added;
                }
                cur = at;
                left = joined;
            },
            Err(e) => {
                proof {
                    assert(here == step);
                    assert(context.model() =~= old(context).model() + (added + step.added));
                    assert(total.result == Err::<(int, nat), ErrView>(e@));
                }
                return Err(e);
            },
        }
    }
    Ok(left)
}

/// Reads a whole program from `input` into the store. On success nothing of
/// the input is left, and the root of the program comes back. Nodes that
/// were made on the way stay in the store, also where the parse fails.
pub fn program<'context, 'source: 'context, C: CompilerContext>(
    context: &'context mut C,
    input: &'source str,
) -> (r: Result<(&'source str, C::ID), SteelErr>)
    requires
        old(context).wf(),
    ensures
        final(context).wf(),
        final(context).model() == old(context).model() + p_program(
            input@,
            old(context).model().len(),
        ).added,
        match p_program(input@, old(context).model().len()).result {
            Ok((end, root)) => r matches Ok((rest, id)) && rest@ == Seq::<char>::empty()
                && id.index() == root,
            Err(e) => r matches Err(err) && err@ == e,
        },
        crate::compiler_context::grounded(old(context).model(), 0)
            ==> crate::compiler_context::grounded(final(context).model(), 0),
{
    proof {
        if crate::compiler_context::grounded(context.model(), 0) {
            lemma_program_grounded(context.model(), input@);
        }
    }
    let chars = chars_of(input);
    let ghost whole = p_expr(chars@, 0, INIT_PRECENDENCE, old(context).model().len());
    let mut min_prec = INIT_PRECENDENCE;
    let (start, first) = match expr_at(context, &chars, 0, &mut min_prec) {
        Ok(found) => found,
        Err(e) => {
            return Err(e);
        },
    };
    let ghost rest = p_rest(
        chars@,
        start as int,
        first.index(),
        old(context).model().len() + whole.added.len() as nat,
    );
    let found = rest_at(context, &chars, start, first);
    assert(context.model() =~= old(context).model() + (whole.added + rest.added));
    match found {
        Ok(root) => {
            let rest = rest_of(input, &chars, chars.len());
            assert(rest@ =~= Seq::<char>::empty());
            Ok((rest, root))
        },
        Err(e) => Err(e),
    }
}

} // verus!

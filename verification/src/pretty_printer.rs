use crate::compiler_context::{Model, Store, StoreModel};
use crate::nodes::{is_operator_name, NodeKind, NodeView};
use crate::text::{integer_text, natural_text, push_integer, push_natural, push_text, string_of};
use crate::typed_index::Handle;
use vstd::prelude::*;

verus! {

/// A piece of printed text, with what the printer has to know about it:
/// whether it must stand in parentheses where it is an operand, and whether
/// it is an infix token.
pub struct Printed {
    pub text: Seq<char>,
    pub complex: bool,
    pub is_operator: bool,
}

/// The texts of `parts` with `sep` between each two of them.
pub open spec fn joined(parts: Seq<Seq<char>>, sep: Seq<char>) -> Seq<char>
    decreases parts.len(),
{
    if parts.len() == 0 {
        Seq::empty()
    } else if parts.len() == 1 {
        parts[0]
    } else {
        joined(parts.drop_last(), sep) + sep + parts.last()
    }
}

/// `text` between parentheses.
pub open spec fn in_parentheses(text: Seq<char>) -> Seq<char> {
    seq!['('] + text + seq![')']
}

/// What stands for a node that the store does not hold.
pub open spec fn missing_node(id: nat) -> Printed {
    Printed { text: "{node? "@ + natural_text(id) + "}"@, complex: false, is_operator: true }
}

/// The name of the positional argument number `n`.
pub open spec fn positional_name(n: nat) -> Seq<char> {
    "arg_"@ + natural_text(n)
}

/// The printed arguments, and whether all of them are positional.
pub struct PrintedArgs {
    pub texts: Seq<Seq<char>>,
    pub positional: bool,
}

/// The arguments `args` from number `from` on, printed. An argument is
/// positional where its name is that of the next positional argument; it is
/// then printed as an operand. Any other argument is printed as its name, an
/// equals sign and its value.
pub open spec fn printed_args(
    m: Model,
    args: Seq<(Seq<char>, nat)>,
    from: nat,
    arg_num: nat,
    fuel: nat,
) -> PrintedArgs
    decreases fuel, 1 + args.len() - from,
{
    if from >= args.len() {
        PrintedArgs { texts: Seq::empty(), positional: true }
    } else {
        let (name, arg) = args[from as int];
        if name == positional_name(arg_num) {
            let rest = printed_args(m, args, from + 1, arg_num + 1, fuel);
            PrintedArgs {
                texts: seq![as_operand(printed(m, arg, fuel))] + rest.texts,
                positional: rest.positional,
            }
        } else {
            let rest = printed_args(m, args, from + 1, arg_num, fuel);
            PrintedArgs {
                texts: seq![name + seq!['='] + at_top(printed(m, arg, fuel))] + rest.texts,
                positional: false,
            }
        }
    }
}

/// A printed piece as it stands where it is an operand.
pub open spec fn as_operand(p: Printed) -> Seq<char> {
    if p.complex {
        in_parentheses(p.text)
    } else {
        p.text
    }
}

/// A printed piece as it stands on its own.
pub open spec fn at_top(p: Printed) -> Seq<char> {
    if p.is_operator {
        in_parentheses(p.text)
    } else {
        p.text
    }
}

/// The node `id` of `m`, printed. `fuel` bounds the depth to which calls are
/// followed; below it a node is printed as missing. A store without cycles
/// never gets there with `fuel` at the number of its nodes.
pub open spec fn printed(m: Model, id: nat, fuel: nat) -> Printed
    decreases fuel, 0int,
{
    if fuel == 0 || id >= m.len() {
        missing_node(id)
    } else {
        match m[id as int] {
            None => missing_node(id),
            Some(NodeView::I64(v)) => Printed {
                text: integer_text(v as int),
                complex: v < 0,
                is_operator: false,
            },
            Some(NodeView::Operator(op)) => Printed {
                text: op.token_text(),
                complex: false,
                is_operator: true,
            },
            Some(NodeView::Symbol(name)) => Printed {
                text: name,
                complex: false,
                is_operator: is_operator_name(name),
            },
            Some(NodeView::Call(call)) => {
                let callee = printed(m, call.callee, (fuel - 1) as nat);
                let args = printed_args(m, call.args, 0, 0, (fuel - 1) as nat);
                if callee.is_operator && !callee.complex && args.positional {
                    Printed {
                        text: (if call.args.len() < 2 {
                            callee.text
                        } else {
                            Seq::empty()
                        }) + joined(args.texts, callee.text),
                        complex: true,
                        is_operator: false,
                    }
                } else {
                    let head = if callee.complex || callee.is_operator {
                        in_parentheses(callee.text)
                    } else {
                        callee.text
                    };
                    Printed {
                        text: head + seq!['('] + joined(args.texts, ", "@) + seq![')'],
                        complex: false,
                        is_operator: false,
                    }
                }
            },
        }
    }
}

/// The program under `id`, as source text.
pub open spec fn pretty_text(m: Model, id: nat) -> Seq<char> {
    at_top(printed(m, id, m.len()))
}

/// The pair of a text and its two flags as a printed piece.
pub open spec fn piece(text: Seq<char>, complex: bool, is_operator: bool) -> Printed {
    Printed { text, complex, is_operator }
}

fn wrap(text: Vec<char>) -> (r: Vec<char>)
    ensures
        r@ == in_parentheses(text@),
{
    let mut out: Vec<char> = Vec::new();
    out.push('(');
    let mut i: usize = 0;
    while i < text.len()
        invariant
            i <= text@.len(),
            out@ == seq!['('] + text@.take(i as int),
        decreases text@.len() - i,
    {
        out.push(text[i]);
        assert(text@.take(i + 1) =~= text@.take(i as int).push(text@[i as int]));
        assert(out@ =~= seq!['('] + text@.take(i + 1));
        i += 1;
    }
    assert(text@.take(i as int) =~= text@);
    out.push(')');
    assert(out@ =~= in_parentheses(text@));
    out
}

/// Appends the characters of `text` to `out`.
fn append(out: &mut Vec<char>, text: &Vec<char>)
    ensures
        final(out)@ == old(out)@ + text@,
{
    let mut i: usize = 0;
    while i < text.len()
        invariant
            i <= text@.len(),
            out@ == old(out)@ + text@.take(i as int),
        decreases text@.len() - i,
    {
        out.push(text[i]);
        assert(text@.take(i + 1) =~= text@.take(i as int).push(text@[i as int]));
        assert(out@ =~= old(out)@ + text@.take(i + 1));
        i += 1;
    }
    assert(text@.take(i as int) =~= text@);
}

/// The view of a list of texts.
pub open spec fn texts_of(parts: Seq<Vec<char>>) -> Seq<Seq<char>> {
    Seq::new(parts.len(), |i: int| parts[i]@)
}

fn join(parts: &Vec<Vec<char>>, sep: &Vec<char>) -> (r: Vec<char>)
    ensures
        r@ == joined(texts_of(parts@), sep@),
{
    let mut out: Vec<char> = Vec::new();
    let mut i: usize = 0;
    let ghost all = texts_of(parts@);
    while i < parts.len()
        invariant
            i <= parts@.len(),
            all == texts_of(parts@),
            out@ == joined(all.take(i as int), sep@),
        decreases parts@.len() - i,
    {
        assert(all.take(i + 1).drop_last() =~= all.take(i as int));
        assert(all.take(i + 1).last() == parts@[i as int]@);
        if i > 0 {
            append(&mut out, sep);
        }
        append(&mut out, &parts[i]);
        assert(out@ =~= joined(all.take(i + 1), sep@));
        i += 1;
    }
    assert(all.take(i as int) =~= all);
    out
}

fn missing<ID: Handle>(id: ID) -> (r: (Vec<char>, bool, bool))
    ensures
        piece(r.0@, r.1, r.2) == missing_node(id.index()),
{
    let mut out: Vec<char> = Vec::new();
    push_text(&mut out, "{node? ");
    push_natural(&mut out, id.position() as u64);
    push_text(&mut out, "}");
    assert(out@ =~= "{node? "@ + natural_text(id.index()) + "}"@);
    (out, false, true)
}

fn positional(n: usize) -> (r: Vec<char>)
    ensures
        r@ == positional_name(n as nat),
{
    let mut out: Vec<char> = Vec::new();
    push_text(&mut out, "arg_");
    push_natural(&mut out, n as u64);
    assert(out@ =~= positional_name(n as nat));
    out
}

fn same_chars(a: &Vec<char>, b: &Vec<char>) -> (r: bool)
    ensures
        r == (a@ == b@),
{
    if a.len() != b.len() {
        return false;
    }
    let mut i: usize = 0;
    while i < a.len()
        invariant
            i <= a@.len() == b@.len(),
            forall|k: int| 0 <= k < i ==> a@[k] == b@[k],
        decreases a@.len() - i,
    {
        if a[i] != b[i] {
            return false;
        }
        i += 1;
    }
    assert(a@ =~= b@);
    true
}

/// Prints the node `id`; see [`printed`].
fn render<C: Store>(context: &C, id: C::ID, fuel: usize) -> (r: (Vec<char>, bool, bool))
    requires
        context.wf(),
    ensures
        piece(r.0@, r.1, r.2) == printed(
            context.model(),
            id.index(),
            fuel as nat,
        ),
    decreases fuel, 0int,
{
    if fuel == 0 {
        return missing(id);
    }
    if let Ok(v) = context.get_i64(id) {
        let mut out: Vec<char> = Vec::new();
        push_integer(&mut out, *v);
        assert(out@ =~= integer_text(*v as int));
        return (out, *v < 0, false);
    }
    if let Ok(op) = context.get_operator(id) {
        let mut out: Vec<char> = Vec::new();
        out.push(op.token());
        assert(out@ =~= op.token_text());
        return (out, false, true);
    }
    if let Ok(s) = context.get_symbol(id) {
        let out = crate::text::chars_of(s.name.as_str());
        return (out, false, s.is_operator());
    }
    if let Ok(c) = context.get_call(id) {
        let ghost m = context.model();
        let ghost call = c@;
        let (callee, is_expr, is_op) = render(context, c.callee, fuel - 1);
        let mut texts: Vec<Vec<char>> = Vec::new();
        let mut all_positional = true;
        let mut arg_num: usize = 0;
        let mut i: usize = 0;
        let ghost total = printed_args(m, call.args, 0, 0, (fuel - 1) as nat);
        assert(Seq::<Seq<char>>::empty() + total.texts =~= total.texts);
        while i < c.args.len()
            invariant
                context.wf(),
                m == context.model(),
                call == c@,
                fuel > 0,
                i <= c.args@.len() == call.args.len(),
                arg_num <= i,
                total.texts == texts_of(texts@) + printed_args(
                    m,
                    call.args,
                    i as nat,
                    arg_num as nat,
                    (fuel - 1) as nat,
                ).texts,
                total.positional == (all_positional && printed_args(
                    m,
                    call.args,
                    i as nat,
                    arg_num as nat,
                    (fuel - 1) as nat,
                ).positional),
            decreases c.args@.len() - i,
        {
            let ghost here = printed_args(
                m,
                call.args,
                i as nat,
                arg_num as nat,
                (fuel - 1) as nat,
            );
            let name = crate::text::chars_of(c.args[i].0.as_str());
            let arg = c.args[i].1;
            assert(call.args[i as int] == (name@, arg.index()));
            let expected = positional(arg_num);
            let (text, complex, operator) = render(context, arg, fuel - 1);
            let ghost value = printed(m, arg.index(), (fuel - 1) as nat);
            assert(piece(text@, complex, operator) == value);
            let ghost old_num = arg_num;
            let shown = if same_chars(&name, &expected) {
                arg_num += 1;
                if complex {
                    wrap(text)
                } else {
                    text
                }
            } else {
                all_positional = false;
                let ghost label = name@;
                let mut out = name;
                out.push('=');
                let value = if operator {
                    wrap(text)
                } else {
                    text
                };
                append(&mut out, &value);
                assert(out@ =~= label + seq!['='] + value@);
                out
            };
            let ghost before = texts_of(texts@);
            texts.push(shown);
            proof {
                let rest = printed_args(
                    m,
                    call.args,
                    (i + 1) as nat,
                    arg_num as nat,
                    (fuel - 1) as nat,
                );
                if name@ == positional_name(old_num as nat) {
                    assert(shown@ == as_operand(value));
                } else {
                    assert(shown@ == name@ + seq!['='] + at_top(value));
                }
                assert(here.texts == seq![shown@] + rest.texts);
                assert(texts_of(texts@) =~= before + seq![shown@]);
                assert(before + (seq![shown@] + rest.texts) =~= (before + seq![shown@])
                    + rest.texts);
            }
            i += 1;
        }
        assert(texts_of(texts@) + Seq::<Seq<char>>::empty() =~= texts_of(texts@));
        if is_op && !is_expr && all_positional {
            let mut out: Vec<char> = Vec::new();
            if c.args.len() < 2 {
                append(&mut out, &callee);
            }
            let body = join(&texts, &callee);
            append(&mut out, &body);
            assert(out@ =~= (if call.args.len() < 2 {
                callee@
            } else {
                Seq::empty()
            }) + joined(total.texts, callee@));
            return (out, true, false);
        }
        let mut out = if is_expr || is_op {
            wrap(callee)
        } else {
            callee
        };
        let ghost head = out@;
        let mut sep: Vec<char> = Vec::new();
        push_text(&mut sep, ", ");
        assert(sep@ =~= ", "@);
        let body = join(&texts, &sep);
        out.push('(');
        append(&mut out, &body);
        out.push(')');
        assert(out@ =~= head + seq!['('] + joined(total.texts, ", "@) + seq![')']);
        return (out, false, false);
    }
    missing(id)
}

/// Prints the program under `id` as source text. A node is printed as
/// missing where the store does not hold it, or where calls are nested
/// deeper than the store has nodes, as only a cycle can make them.
pub fn pretty<C: Store>(context: &C, id: C::ID) -> (r: String)
    requires
        context.wf(),
    ensures
        r@ == pretty_text(context.model(), id.index()),
{
    let (res, _complex_expr, is_operator) = render(context, id, context.node_count());
    if is_operator {
        string_of(&wrap(res))
    } else {
        string_of(&res)
    }
}

/// Prints the node under `id` and says whether the text must stand in
/// parentheses as an operand, and whether it is an infix token.
pub fn pretty_impl<C: Store>(context: &C, id: C::ID) -> (r: (String, bool, bool))
    requires
        context.wf(),
    ensures
        piece(r.0@, r.1, r.2) == printed(
            context.model(),
            id.index(),
            context.model().len(),
        ),
{
    let (res, complex_expr, is_operator) = render(context, id, context.node_count());
    (string_of(&res), complex_expr, is_operator)
}

} // verus!

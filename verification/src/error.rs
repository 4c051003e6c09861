use crate::ast::AstError;
use crate::ecs::EcsError;
use crate::text::{
    integer_text, natural_text, push_integer, push_natural, push_text, quote, quoted,
    string_of,
};
use vstd::prelude::*;
use vstd::string::*;

verus! {

/// Where in the lexical layer a parse gave up.
#[derive(Copy, Clone, Debug, PartialEq, Eq, Structural)]
pub enum ErrorKind {
    Tag,
    Alt,
    TakeWhile1,
}

impl ErrorKind {
    pub open spec fn name(self) -> Seq<char> {
        match self {
            ErrorKind::Tag => "Tag"@,
            ErrorKind::Alt => "Alt"@,
            ErrorKind::TakeWhile1 => "TakeWhile1"@,
        }
    }
}

/// Why a run of digits is no 64-bit integer.
#[derive(Copy, Clone, Debug, PartialEq, Eq, Structural)]
pub enum IntErrorKind {
    PosOverflow,
}

#[must_use]
#[derive(Debug)]
pub enum SteelErr {
    MalformedInteger(String, IntErrorKind),
    AstError(AstError),
    EcsError(EcsError),
    PrecedenceError { precendence: i32 },
    UnexpectedEndOfInput,
    ReliedOnUninitializedMemory(usize),
    ReliedOnOutOfBoundsMemory(usize),
    MissingArgumentExpectedByExtern(String, String),
    MissingValueForBinding(String),
    MalformedExpression(String, String),
    ParserError { input: String, code: ErrorKind },
    ErrorExpected(Box<SteelErr>, String),
    Multi(Box<SteelErr>, Box<SteelErr>),
}

/// An error with its texts as character sequences.
pub enum ErrView {
    MalformedInteger(Seq<char>, IntErrorKind),
    AstError(AstError),
    EcsError(EcsError),
    PrecedenceError { precendence: i32 },
    UnexpectedEndOfInput,
    ReliedOnUninitializedMemory(usize),
    ReliedOnOutOfBoundsMemory(usize),
    MissingArgumentExpectedByExtern(Seq<char>, Seq<char>),
    MissingValueForBinding(Seq<char>),
    MalformedExpression(Seq<char>, Seq<char>),
    ParserError { input: Seq<char>, code: ErrorKind },
    ErrorExpected(Box<ErrView>, Seq<char>),
    Multi(Box<ErrView>, Box<ErrView>),
}

/// The text of an error of a pool that leaves tombstones.
pub open spec fn tombstoning_error_text(e: crate::tombstoning_arena::ArenaError) -> Seq<char> {
    match e {
        crate::tombstoning_arena::ArenaError::IndexEmpty(name, id) => "IndexEmpty("@ + quoted(
            name@,
        ) + ", "@ + natural_text(id as nat) + ")"@,
        crate::tombstoning_arena::ArenaError::IndexOutOfBounds(id, len) => "IndexOutOfBounds("@
            + natural_text(id as nat) + ", "@ + natural_text(len as nat) + ")"@,
    }
}

/// The text of an error of a pool without holes.
pub open spec fn compact_error_text(e: crate::compact_arena::ArenaError) -> Seq<char> {
    match e {
        crate::compact_arena::ArenaError::IndexEmpty(name, id) => "IndexEmpty("@ + quoted(name@)
            + ", "@ + natural_text(id as nat) + ")"@,
        crate::compact_arena::ArenaError::IndexOutOfBounds(id, len) => "IndexOutOfBounds("@
            + natural_text(id as nat) + ", "@ + natural_text(len as nat) + ")"@,
    }
}

/// The text of an error of the tree store: the error's name and, in
/// parentheses, what it holds.
pub open spec fn ast_error_text(e: AstError) -> Seq<char> {
    match e {
        AstError::NodeOfWrongKindError(id, name) => "NodeOfWrongKindError("@ + natural_text(
            id as nat,
        ) + ", "@ + quoted(name@) + ")"@,
        AstError::InternalError(inner) => "InternalError("@ + tombstoning_error_text(inner)
            + ")"@,
    }
}

/// The text of an error of the component store: the error's name and, in
/// parentheses, what it holds.
pub open spec fn ecs_error_text(e: EcsError) -> Seq<char> {
    match e {
        EcsError::ComponentNotFound(name, id) => "ComponentNotFound("@ + quoted(name@)
            + ", TypedIndex { id: "@ + natural_text(id.id as nat)
            + ", ty: PhantomData<steel::ecs::component::Entity> })"@,
        EcsError::InternalError(inner) => "InternalError("@ + compact_error_text(inner) + ")"@,
    }
}

fn push_ast_error(out: &mut Vec<char>, e: &AstError)
    ensures
        final(out)@ == old(out)@ + ast_error_text(*e),
{
    match e {
        AstError::NodeOfWrongKindError(id, name) => {
            push_text(out, "NodeOfWrongKindError(");
            push_natural(out, *id as u64);
            push_text(out, ", ");
            push_text(out, quote(name).as_str());
            push_text(out, ")");
        },
        AstError::InternalError(crate::tombstoning_arena::ArenaError::IndexEmpty(name, id)) => {
            push_text(out, "InternalError(");
            push_text(out, "IndexEmpty(");
            push_text(out, quote(name.as_str()).as_str());
            push_text(out, ", ");
            push_natural(out, *id as u64);
            push_text(out, ")");
            push_text(out, ")");
        },
        AstError::InternalError(
            crate::tombstoning_arena::ArenaError::IndexOutOfBounds(id, len),
        ) => {
            push_text(out, "InternalError(");
            push_text(out, "IndexOutOfBounds(");
            push_natural(out, *id as u64);
            push_text(out, ", ");
            push_natural(out, *len as u64);
            push_text(out, ")");
            push_text(out, ")");
        },
    }
    assert(out@ =~= old(out)@ + ast_error_text(*e));
}

fn push_ecs_error(out: &mut Vec<char>, e: &EcsError)
    ensures
        final(out)@ == old(out)@ + ecs_error_text(*e),
{
    match e {
        EcsError::ComponentNotFound(name, id) => {
            push_text(out, "ComponentNotFound(");
            push_text(out, quote(name.as_str()).as_str());
            push_text(out, ", TypedIndex { id: ");
            push_natural(out, id.id as u64);
            push_text(out, ", ty: PhantomData<steel::ecs::component::Entity> })");
        },
        EcsError::InternalError(crate::compact_arena::ArenaError::IndexEmpty(name, id)) => {
            push_text(out, "InternalError(");
            push_text(out, "IndexEmpty(");
            push_text(out, quote(name.as_str()).as_str());
            push_text(out, ", ");
            push_natural(out, *id as u64);
            push_text(out, ")");
            push_text(out, ")");
        },
        EcsError::InternalError(crate::compact_arena::ArenaError::IndexOutOfBounds(id, len)) => {
            push_text(out, "InternalError(");
            push_text(out, "IndexOutOfBounds(");
            push_natural(out, *id as u64);
            push_text(out, ", ");
            push_natural(out, *len as u64);
            push_text(out, ")");
            push_text(out, ")");
        },
    }
    assert(out@ =~= old(out)@ + ecs_error_text(*e));
}

impl ErrView {
    /// The one-line message of the error.
    pub open spec fn text(self) -> Seq<char>
        decreases self,
    {
        match self {
            ErrView::PrecedenceError { precendence } =>
                "Unexpected operator due to max precendence setting ("@ + integer_text(
                    precendence as int,
                ) + ")"@,
            ErrView::MalformedInteger(input, IntErrorKind::PosOverflow) =>
                "Failed to parse int due to ParseIntError { kind: PosOverflow } in "@ + input,
            ErrView::UnexpectedEndOfInput => "Expected an expression, found nothing"@,
            ErrView::ReliedOnUninitializedMemory(index) => "Relied on uninitialized memory "@
                + natural_text(index as nat),
            ErrView::ReliedOnOutOfBoundsMemory(index) => "Relied on out of bouds memory "@
                + natural_text(index as nat),
            ErrView::MissingArgumentExpectedByExtern(func, arg) => "Expected argument "@ + arg
                + " for "@ + func,
            ErrView::MissingValueForBinding(name) => "Expected value for "@ + name,
            ErrView::MalformedExpression(input, expected) => "Expected "@ + expected + ", found "@
                + quoted(input),
            ErrView::ParserError { input, code } => "Failed in "@ + code.name()
                + " while parsing "@ + input,
            ErrView::ErrorExpected(err, exp) => err.text() + " expected "@ + exp,
            ErrView::AstError(e) => ast_error_text(e),
            ErrView::EcsError(e) => ecs_error_text(e),
            ErrView::Multi(a, b) => a.text() + "\nand "@ + b.text(),
        }
    }
}

/// An error with its texts as character sequences.
pub open spec fn view_of(e: SteelErr) -> ErrView
    decreases e,
{
    match e {
        SteelErr::MalformedInteger(input, kind) => ErrView::MalformedInteger(input@, kind),
        SteelErr::AstError(e) => ErrView::AstError(e),
        SteelErr::EcsError(e) => ErrView::EcsError(e),
        SteelErr::PrecedenceError { precendence } => ErrView::PrecedenceError { precendence },
        SteelErr::UnexpectedEndOfInput => ErrView::UnexpectedEndOfInput,
        SteelErr::ReliedOnUninitializedMemory(index) => ErrView::ReliedOnUninitializedMemory(
            index,
        ),
        SteelErr::ReliedOnOutOfBoundsMemory(index) => ErrView::ReliedOnOutOfBoundsMemory(index),
        SteelErr::MissingArgumentExpectedByExtern(func, arg) =>
            ErrView::MissingArgumentExpectedByExtern(func@, arg@),
        SteelErr::MissingValueForBinding(name) => ErrView::MissingValueForBinding(name@),
        SteelErr::MalformedExpression(input, expected) => ErrView::MalformedExpression(
            input@,
            expected@,
        ),
        SteelErr::ParserError { input, code } => ErrView::ParserError { input: input@, code },
        SteelErr::ErrorExpected(err, exp) => ErrView::ErrorExpected(Box::new(view_of(*err)), exp@),
        SteelErr::Multi(a, b) => ErrView::Multi(Box::new(view_of(*a)), Box::new(view_of(*b))),
    }
}

impl View for SteelErr {
    type V = ErrView;

    open spec fn view(&self) -> ErrView {
        view_of(*self)
    }
}

impl SteelErr {
    /// Appends the error's message to `out`.
    fn push_message(&self, out: &mut Vec<char>)
        ensures
            final(out)@ == old(out)@ + self@.text(),
        decreases self,
    {
        match self {
            SteelErr::PrecedenceError { precendence } => {
                push_text(out, "Unexpected operator due to max precendence setting (");
                push_integer(out, *precendence as i64);
                push_text(out, ")");
            },
            SteelErr::MalformedInteger(input, IntErrorKind::PosOverflow) => {
                push_text(out, "Failed to parse int due to ParseIntError { kind: PosOverflow } in ");
                push_text(out, input.as_str());
            },
            SteelErr::UnexpectedEndOfInput => {
                push_text(out, "Expected an expression, found nothing");
            },
            SteelErr::ReliedOnUninitializedMemory(index) => {
                push_text(out, "Relied on uninitialized memory ");
                push_natural(out, *index as u64);
            },
            SteelErr::ReliedOnOutOfBoundsMemory(index) => {
                push_text(out, "Relied on out of bouds memory ");
                push_natural(out, *index as u64);
            },
            SteelErr::MissingArgumentExpectedByExtern(func, arg) => {
                push_text(out, "Expected argument ");
                push_text(out, arg.as_str());
                push_text(out, " for ");
                push_text(out, func.as_str());
            },
            SteelErr::MissingValueForBinding(name) => {
                push_text(out, "Expected value for ");
                push_text(out, name.as_str());
            },
            SteelErr::MalformedExpression(input, expected) => {
                push_text(out, "Expected ");
                push_text(out, expected.as_str());
                push_text(out, ", found ");
                let shown = quote(input.as_str());
                push_text(out, shown.as_str());
            },
            SteelErr::ParserError { input, code } => {
                push_text(out, "Failed in ");
                match code {
                    ErrorKind::Tag => push_text(out, "Tag"),
                    ErrorKind::Alt => push_text(out, "Alt"),
                    ErrorKind::TakeWhile1 => push_text(out, "TakeWhile1"),
                }
                push_text(out, " while parsing ");
                push_text(out, input.as_str());
            },
            SteelErr::ErrorExpected(err, exp) => {
                err.push_message(out);
                push_text(out, " expected ");
                push_text(out, exp.as_str());
            },
            SteelErr::AstError(e) => {
                push_ast_error(out, e);
            },
            SteelErr::EcsError(e) => {
                push_ecs_error(out, e);
            },
            SteelErr::Multi(a, b) => {
                a.push_message(out);
                push_text(out, "\nand ");
                b.push_message(out);
            },
        }
        assert(out@ =~= old(out)@ + self@.text());
    }

    /// The error's message on one line, as it is shown to the user.
    pub fn message(&self) -> (r: String)
        ensures
            r@ == self@.text(),
    {
        let mut out: Vec<char> = Vec::new();
        self.push_message(&mut out);
        assert(out@ =~= self@.text());
        string_of(&out)
    }
}

impl From<AstError> for SteelErr {
    fn from(err: AstError) -> (r: Self) {
        SteelErr::AstError(err)
    }
}

impl vstd::std_specs::convert::FromSpecImpl<AstError> for SteelErr {
    open spec fn obeys_from_spec() -> bool {
        true
    }

    open spec fn from_spec(err: AstError) -> Self {
        SteelErr::AstError(err)
    }
}

impl From<EcsError> for SteelErr {
    fn from(err: EcsError) -> (r: Self) {
        SteelErr::EcsError(err)
    }
}

impl vstd::std_specs::convert::FromSpecImpl<EcsError> for SteelErr {
    open spec fn obeys_from_spec() -> bool {
        true
    }

    open spec fn from_spec(err: EcsError) -> Self {
        SteelErr::EcsError(err)
    }
}

} // verus!

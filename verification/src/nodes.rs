use crate::text::{chars_of, same_text};
use crate::typed_index::{Handle, TypeLabel};
use vstd::prelude::*;
use vstd::string::*;

verus! {

#[derive(Copy, Clone, Debug, PartialEq, Eq, Ord, PartialOrd, Hash, Structural)]
pub enum Operator {
    Add,
    Sub,
    Mul,
    Div,
}

impl Operator {
    /// The character that stands for the operator in source text.
    pub open spec fn token_char(self) -> char {
        match self {
            Operator::Add => '+',
            Operator::Sub => '-',
            Operator::Mul => '*',
            Operator::Div => '/',
        }
    }

    /// The operator's token as a one-character string.
    pub open spec fn token_text(self) -> Seq<char> {
        seq![self.token_char()]
    }

    /// The operator's token as a string.
    pub fn token_str(&self) -> (r: &'static str)
        ensures
            r@ == self.token_text(),
    {
        proof {
            reveal_strlit("+");
            reveal_strlit("-");
            reveal_strlit("*");
            reveal_strlit("/");
        }
        let r = match self {
            Operator::Add => "+",
            Operator::Sub => "-",
            Operator::Mul => "*",
            Operator::Div => "/",
        };
        assert(r@ =~= self.token_text());
        r
    }

    pub fn token(&self) -> (r: char)
        ensures
            r == self.token_char(),
    {
        match self {
            Operator::Add => '+',
            Operator::Sub => '-',
            Operator::Mul => '*',
            Operator::Div => '/',
        }
    }
}

/// Whether `name` is one of the infix tokens `+`, `-`, `*`, `/`.
pub open spec fn is_operator_name(name: Seq<char>) -> bool {
    name.len() == 1 && (name[0] == '+' || name[0] == '-' || name[0] == '*' || name[0] == '/')
}

#[derive(Clone, Debug, PartialEq, Eq, Ord, PartialOrd, Hash)]
pub struct Symbol {
    pub name: String,
}

impl View for Symbol {
    type V = Seq<char>;

    open spec fn view(&self) -> Seq<char> {
        self.name@
    }
}

impl Symbol {
    pub fn new(name: &str) -> (r: Self)
        ensures
            r@ == name@,
    {
        Self { name: String::from_str(name) }
    }

    /// A symbol for an infix token.
    pub fn operator(name: &str) -> (r: Self)
        ensures
            r@ == name@,
    {
        Self { name: String::from_str(name) }
    }

    /// Whether the symbol names an infix token like `+`.
    pub fn is_operator(&self) -> (r: bool)
        ensures
            r == is_operator_name(self@),
    {
        let chars = chars_of(self.name.as_str());
        chars.len() == 1 && (chars[0] == '+' || chars[0] == '-' || chars[0] == '*' || chars[0]
            == '/')
    }
}

/// The last value that `args` binds to `name`.
pub open spec fn find_last<P>(args: Seq<(String, P)>, name: Seq<char>) -> Option<P>
    decreases args.len(),
{
    if args.len() == 0 {
        None
    } else if args.last().0@ == name {
        Some(args.last().1)
    } else {
        find_last(args.drop_last(), name)
    }
}

#[derive(Clone, Debug, PartialEq, Eq, Ord, PartialOrd, Hash)]
pub struct Call<P> {
    pub callee: P,
    pub args: Vec<(String, P)>,
    pub left: Option<P>,
    pub right: Option<P>,
}

/// What a call holds, with names as character sequences and handles as
/// positions.
pub struct CallView {
    pub callee: nat,
    pub args: Seq<(Seq<char>, nat)>,
    pub left: Option<nat>,
    pub right: Option<nat>,
}

pub open spec fn handle_position<P: Handle>(h: Option<P>) -> Option<nat> {
    match h {
        Some(p) => Some(p.index()),
        None => None,
    }
}

impl<P: Handle> View for Call<P> {
    type V = CallView;

    open spec fn view(&self) -> CallView {
        CallView {
            callee: self.callee.index(),
            args: Seq::new(self.args@.len(), |i: int| (self.args@[i].0@, self.args@[i].1.index())),
            left: handle_position(self.left),
            right: handle_position(self.right),
        }
    }
}

impl<P: Copy> Call<P> {
    /// A call of `callee` on `args`. `left` and `right` remember what the
    /// names `arg_0` and `arg_1` are bound to, the last binding of each.
    pub fn new(callee: P, args: Vec<(String, P)>) -> (r: Self)
        ensures
            r.callee == callee,
            r.args == args,
            r.left == find_last(args@, "arg_0"@),
            r.right == find_last(args@, "arg_1"@),
    {
        let mut left = None;
        let mut right = None;
        let mut i: usize = 0;
        while i < args.len()
            invariant
                i <= args@.len(),
                left == find_last(args@.take(i as int), "arg_0"@),
                right == find_last(args@.take(i as int), "arg_1"@),
            decreases args@.len() - i,
        {
            assert(args@.take(i + 1).drop_last() =~= args@.take(i as int));
            assert(args@.take(i + 1).last() == args@[i as int]);
            if same_text(args[i].0.as_str(), "arg_0") {
                left = Some(args[i].1);
            }
            if same_text(args[i].0.as_str(), "arg_1") {
                right = Some(args[i].1);
            }
            i += 1;
        }
        assert(args@.take(i as int) =~= args@);
        Self { callee, args, left, right }
    }
}

/// The last position that `args` binds to `name`.
pub open spec fn last_bound(args: Seq<(Seq<char>, nat)>, name: Seq<char>) -> Option<nat>
    decreases args.len(),
{
    if args.len() == 0 {
        None
    } else if args.last().0 == name {
        Some(args.last().1)
    } else {
        last_bound(args.drop_last(), name)
    }
}

/// The call of `callee` on `args`, as a node.
pub open spec fn call_node(callee: nat, args: Seq<(Seq<char>, nat)>) -> NodeView {
    NodeView::Call(
        CallView {
            callee,
            args,
            left: last_bound(args, "arg_0"@),
            right: last_bound(args, "arg_1"@),
        },
    )
}

/// The bindings of a call, with names as character sequences and handles
/// as positions.
pub open spec fn bindings_view<P: Handle>(args: Seq<(String, P)>) -> Seq<(Seq<char>, nat)> {
    Seq::new(args.len(), |i: int| (args[i].0@, args[i].1.index()))
}

pub proof fn lemma_find_last_view<P: Handle>(args: Seq<(String, P)>, name: Seq<char>)
    ensures
        handle_position(find_last(args, name)) == last_bound(bindings_view(args), name),
    decreases args.len(),
{
    if args.len() > 0 {
        lemma_find_last_view(args.drop_last(), name);
        assert(bindings_view(args).drop_last() =~= bindings_view(args.drop_last()));
    }
}

/// A call made by `Call::new` is the call node of its callee and bindings.
pub proof fn lemma_new_call_node<P: Handle>(call: Call<P>)
    requires
        call.left == find_last(call.args@, "arg_0"@),
        call.right == find_last(call.args@, "arg_1"@),
    ensures
        call.node() == call_node(call.callee.index(), bindings_view(call.args@)),
{
    lemma_find_last_view(call.args@, "arg_0"@);
    lemma_find_last_view(call.args@, "arg_1"@);
    assert(call@.args =~= bindings_view(call.args@));
}

/// The four kinds of node.
#[derive(Copy, Clone, Debug, PartialEq, Eq, Structural)]
pub enum Kind {
    I64,
    Operator,
    Symbol,
    Call,
}

/// What a node is, whatever store holds it: the mathematical value that the
/// contracts of the stores and of everything built on them speak of.
pub enum NodeView {
    I64(i64),
    Operator(Operator),
    Symbol(Seq<char>),
    Call(CallView),
}

impl NodeView {
    pub open spec fn kind(self) -> Kind {
        match self {
            NodeView::I64(_) => Kind::I64,
            NodeView::Operator(_) => Kind::Operator,
            NodeView::Symbol(_) => Kind::Symbol,
            NodeView::Call(_) => Kind::Call,
        }
    }
}

impl NodeView {
    /// Whether the node refers only to slots before `at`. A node that is
    /// no call refers to nothing.
    pub open spec fn refers_before(self, at: nat) -> bool {
        self matches NodeView::Call(call) ==> {
            &&& call.callee < at
            &&& forall|k: int| 0 <= k < call.args.len() ==> (#[trigger] call.args[k]).1 < at
            &&& call.left matches Some(l) ==> l < at
            &&& call.right matches Some(r) ==> r < at
        }
    }
}

/// What a name is bound to is one of the positions of the bindings.
pub proof fn lemma_last_bound_is_bound(args: Seq<(Seq<char>, nat)>, name: Seq<char>)
    ensures
        last_bound(args, name) matches Some(at) ==> exists|k: int|
            0 <= k < args.len() && (#[trigger] args[k]).1 == at,
    decreases args.len(),
{
    if args.len() > 0 {
        if args.last().0 == name {
            assert(args[args.len() - 1].1 == args.last().1);
        } else {
            lemma_last_bound_is_bound(args.drop_last(), name);
            if last_bound(args, name) is Some {
                let k = choose|k: int|
                    0 <= k < args.drop_last().len() && (#[trigger] args.drop_last()[k]).1
                        == last_bound(args, name)->Some_0;
                assert(args[k] == args.drop_last()[k]);
            }
        }
    }
}

/// A call of something before `at` on things before `at` refers only to
/// slots before `at`.
pub proof fn lemma_call_node_refers_before(callee: nat, args: Seq<(Seq<char>, nat)>, at: nat)
    requires
        callee < at,
        forall|k: int| 0 <= k < args.len() ==> (#[trigger] args[k]).1 < at,
    ensures
        call_node(callee, args).refers_before(at),
{
    lemma_last_bound_is_bound(args, "arg_0"@);
    lemma_last_bound_is_bound(args, "arg_1"@);
}

/// A type of value that a store can hold as a node.
pub trait NodeKind: Sized {
    /// The node that the value is.
    spec fn node(&self) -> NodeView;

    /// The kind of every value of this type.
    spec fn kind() -> Kind;

    proof fn node_has_kind(&self)
        ensures
            self.node().kind() == Self::kind(),
    ;

    /// A copy that is the same node.
    fn duplicate(&self) -> (r: Self)
        ensures
            r.node() == self.node(),
    ;
}

impl NodeKind for i64 {
    open spec fn node(&self) -> NodeView {
        NodeView::I64(*self)
    }

    open spec fn kind() -> Kind {
        Kind::I64
    }

    proof fn node_has_kind(&self) {
    }

    fn duplicate(&self) -> (r: Self) {
        *self
    }
}

impl NodeKind for Operator {
    open spec fn node(&self) -> NodeView {
        NodeView::Operator(*self)
    }

    open spec fn kind() -> Kind {
        Kind::Operator
    }

    proof fn node_has_kind(&self) {
    }

    fn duplicate(&self) -> (r: Self) {
        *self
    }
}

impl NodeKind for Symbol {
    open spec fn node(&self) -> NodeView {
        NodeView::Symbol(self@)
    }

    open spec fn kind() -> Kind {
        Kind::Symbol
    }

    proof fn node_has_kind(&self) {
    }

    fn duplicate(&self) -> (r: Self) {
        Symbol { name: self.name.clone() }
    }
}

impl<P: Handle> NodeKind for Call<P> {
    open spec fn node(&self) -> NodeView {
        NodeView::Call(self@)
    }

    open spec fn kind() -> Kind {
        Kind::Call
    }

    proof fn node_has_kind(&self) {
    }

    fn duplicate(&self) -> (r: Self) {
        let mut args: Vec<(String, P)> = Vec::new();
        let mut i: usize = 0;
        while i < self.args.len()
            invariant
                i <= self.args@.len(),
                args@.len() == i,
                forall|j: int|
                    0 <= j < i ==> args@[j].0@ == self.args@[j].0@ && args@[j].1
                        == self.args@[j].1,
            decreases self.args@.len() - i,
        {
            args.push((self.args[i].0.clone(), self.args[i].1));
            i += 1;
        }
        let r = Call { callee: self.callee, args, left: self.left, right: self.right };
        assert(r@.args =~= self@.args);
        r
    }
}

impl TypeLabel for Operator {
    open spec fn label() -> Seq<char> {
        "steel::nodes::Operator"@
    }

    fn type_label() -> (r: String) {
        let r = String::from_str("steel::nodes::Operator");
        assert(r@ == "steel::nodes::Operator"@);
        assert(Self::label() == "steel::nodes::Operator"@);
        r
    }
}

impl TypeLabel for Symbol {
    open spec fn label() -> Seq<char> {
        "steel::nodes::Symbol"@
    }

    fn type_label() -> (r: String) {
        let r = String::from_str("steel::nodes::Symbol");
        assert(r@ == "steel::nodes::Symbol"@);
        assert(Self::label() == "steel::nodes::Symbol"@);
        r
    }
}

impl<P: TypeLabel> TypeLabel for Call<P> {
    open spec fn label() -> Seq<char> {
        "steel::nodes::Call<"@ + P::label() + ">"@
    }

    fn type_label() -> (r: String) {
        let inner = P::type_label();
        let head = String::from_str("steel::nodes::Call<");
        assert(head@ == "steel::nodes::Call<"@);
        let r = head.concat(inner.as_str()).concat(">");
        assert(r@ == "steel::nodes::Call<"@ + P::label() + ">"@);
        assert(Self::label() == "steel::nodes::Call<"@ + P::label() + ">"@);
        r
    }
}

} // verus!

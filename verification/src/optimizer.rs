use crate::compiler_context::{
    grounded, is_live, lookup, positions, put_back, same_shape, visit_all, walk, Lookup, Model, NodeStore,
    Position, Store, StoreModel, Visitor,
};
use crate::nodes::{Call, CallView, Kind, NodeKind, NodeView, Operator};
use crate::typed_index::Handle;
use vstd::prelude::*;

verus! {

/// Which passes the optimizer runs.
#[derive(Debug, PartialEq, Eq, Ord, PartialOrd, Hash, Structural)]
#[non_exhaustive]
pub struct Optimizations {
    pub constant_folding: bool,
}

impl Default for Optimizations {
    fn default() -> (r: Self)
        ensures
            !r.constant_folding,
    {
        Optimizations { constant_folding: false }
    }
}

impl Optimizations {
    pub fn none() -> (r: Self)
        ensures
            !r.constant_folding,
    {
        Optimizations { constant_folding: false }
    }

    pub fn and_constant_folding(self) -> (r: Self)
        ensures
            r.constant_folding,
    {
        Self { constant_folding: true, ..self }
    }

    pub fn all(self) -> (r: Self)
        ensures
            r.constant_folding,
    {
        self.and_constant_folding()
    }
}

/// `l / r` rounded toward zero, for `r` other than zero.
pub open spec fn truncated_quotient(l: int, r: int) -> int {
    if l == 0 {
        0
    } else if l > 0 && r > 0 {
        l / r
    } else if l < 0 && r < 0 {
        (l * -1) / (r * -1)
    } else if l < 0 {
        ((l * -1) / r) * -1
    } else {
        (l / (r * -1)) * -1
    }
}

/// The quotient of two 64-bit integers as this language has it: zero where
/// the divisor is zero; else the quotient rounded toward zero, but for the
/// one quotient that does not fit (the least integer by minus one), which
/// wraps around to the least integer.
pub open spec fn divided(l: i64, r: i64) -> i64 {
    if r == 0 {
        0
    } else if truncated_quotient(l as int, r as int) > i64::MAX {
        i64::MIN
    } else {
        truncated_quotient(l as int, r as int) as i64
    }
}

/// What `op` makes of `l` and `r`. Sums, differences and products wrap
/// around.
pub open spec fn applied(op: Operator, l: i64, r: i64) -> i64 {
    match op {
        Operator::Add => l.wrapping_add(r),
        Operator::Sub => l.wrapping_sub(r),
        Operator::Mul => l.wrapping_mul(r),
        Operator::Div => divided(l, r),
    }
}

/// A quotient is no larger in magnitude than its dividend.
pub proof fn lemma_quotient_bound(l: int, r: int)
    requires
        r != 0,
    ensures
        l >= 0 ==> -l <= truncated_quotient(l, r) <= l,
        l < 0 ==> l <= truncated_quotient(l, r) <= -l,
{
    let a = if l < 0 { l * -1 } else { l };
    let b = if r < 0 { r * -1 } else { r };
    assert(0 <= a / b <= a) by (nonlinear_arith)
        requires
            a >= 0,
            b > 0,
    ;
}

pub fn divide(l: i64, r: i64) -> (q: i64)
    ensures
        q == divided(l, r),
{
    proof {
        if r != 0 {
            lemma_quotient_bound(l as int, r as int);
        }
    }
    match l.checked_div(r) {
        Some(q) => q,
        None => if r == 0 {
            0
        } else {
            i64::MIN
        },
    }
}

pub fn apply(op: Operator, l: i64, r: i64) -> (v: i64)
    ensures
        v == applied(op, l, r),
{
    match op {
        Operator::Add => l.wrapping_add(r),
        Operator::Sub => l.wrapping_sub(r),
        Operator::Mul => l.wrapping_mul(r),
        Operator::Div => divide(l, r),
    }
}

/// The integer at `at`, if `at` names an integer node of `m`.
pub open spec fn integer_at(m: Model, at: Option<nat>) -> Option<i64> {
    match at {
        Some(a) => match lookup(m, a, Kind::I64) {
            Lookup::Found(NodeView::I64(v)) => Some(v),
            _ => None,
        },
        None => None,
    }
}

/// The operator at `at`, if `at` names an operator node of `m`.
pub open spec fn operator_at(m: Model, at: nat) -> Option<Operator> {
    match lookup(m, at, Kind::Operator) {
        Lookup::Found(NodeView::Operator(op)) => Some(op),
        _ => None,
    }
}

/// The value of the call `call` where it can be known without running it:
/// its callee is an operator, and the arguments `arg_0` and `arg_1` are both
/// integers.
pub open spec fn folded_call(m: Model, call: CallView) -> Option<i64> {
    match (operator_at(m, call.callee), integer_at(m, call.left), integer_at(m, call.right)) {
        (Some(op), Some(l), Some(r)) => Some(applied(op, l, r)),
        _ => None,
    }
}

/// The value that the node at `at` folds to, if it is a call that folds.
pub open spec fn folded(m: Model, at: nat) -> Option<i64> {
    match lookup(m, at, Kind::Call) {
        Lookup::Found(NodeView::Call(call)) => folded_call(m, call),
        _ => None,
    }
}

/// One pass of constant folding: every call that folds becomes the integer
/// that it folds to, all at once.
pub open spec fn fold_pass(m: Model) -> Model {
    Seq::new(
        m.len(),
        |i: int|
            match folded(m, i as nat) {
                Some(v) => Some(NodeView::I64(v)),
                None => m[i],
            },
    )
}

/// Whether no call of `m` folds.
pub open spec fn is_folded(m: Model) -> bool {
    forall|at: nat| (#[trigger] folded(m, at)) is None
}

/// The number of calls among the nodes of `m`.
pub open spec fn calls_in(m: Model) -> nat
    decreases m.len(),
{
    if m.len() == 0 {
        0
    } else {
        calls_in(m.drop_last()) + if lookup(m, (m.len() - 1) as nat, Kind::Call) is Found {
            1nat
        } else {
            0nat
        }
    }
}

/// Constant folding to a fixed point: passes are made until no call folds.
pub open spec fn fully_folded(m: Model) -> Model
    decreases calls_in(m),
{
    if is_folded(m) || calls_in(fold_pass(m)) >= calls_in(m) {
        m
    } else {
        fully_folded(fold_pass(m))
    }
}

/// What the optimizer makes of a store.
pub open spec fn optimized(m: Model, optimizations: Optimizations) -> Model {
    if optimizations.constant_folding {
        fully_folded(m)
    } else {
        m
    }
}

/// A pass turns calls into integers and touches nothing else, so it leaves
/// no more calls than it found, and fewer where a call folds.
pub proof fn lemma_pass_drops_calls(m: Model, upto: nat)
    requires
        upto <= m.len(),
    ensures
        calls_in(fold_pass(m).take(upto as int)) <= calls_in(m.take(upto as int)),
        (exists|at: nat| at < upto && (#[trigger] folded(m, at)) is Some) ==> calls_in(
            fold_pass(m).take(upto as int),
        ) < calls_in(m.take(upto as int)),
    decreases upto,
{
    if upto > 0 {
        let last = (upto - 1) as nat;
        lemma_pass_drops_calls(m, last);
        let a = m.take(upto as int);
        let b = fold_pass(m).take(upto as int);
        assert(a.drop_last() =~= m.take(last as int));
        assert(b.drop_last() =~= fold_pass(m).take(last as int));
        assert(a[last as int] == m[last as int]);
        assert(b[last as int] == fold_pass(m)[last as int]);
        if exists|at: nat| at < upto && (#[trigger] folded(m, at)) is Some {
            let at = choose|at: nat| at < upto && (#[trigger] folded(m, at)) is Some;
            if at < last {
                assert(exists|x: nat| x < last && (#[trigger] folded(m, x)) is Some);
            }
        }
    }
}

/// Where a call folds, a pass leaves fewer calls than it found.
pub proof fn lemma_pass_makes_progress(m: Model)
    requires
        !is_folded(m),
    ensures
        calls_in(fold_pass(m)) < calls_in(m),
{
    let at = choose|at: nat| (#[trigger] folded(m, at)) is Some;
    assert(at < m.len());
    lemma_pass_drops_calls(m, m.len());
    assert(m.take(m.len() as int) =~= m);
    assert(fold_pass(m).take(m.len() as int) =~= fold_pass(m));
}

/// What folding to a fixed point is: the store itself where no call folds,
/// else the fixed point of the store after one pass.
pub proof fn lemma_fully_folded_unfolds(m: Model)
    ensures
        fully_folded(m) == (if is_folded(m) {
            m
        } else {
            fully_folded(fold_pass(m))
        }),
{
    if !is_folded(m) {
        lemma_pass_makes_progress(m);
    }
}

/// No call folds in a store that was folded to a fixed point.
pub proof fn lemma_fully_folded_is_folded(m: Model)
    ensures
        is_folded(fully_folded(m)),
    decreases calls_in(m),
{
    lemma_fully_folded_unfolds(m);
    if !is_folded(m) {
        lemma_pass_makes_progress(m);
        lemma_fully_folded_is_folded(fold_pass(m));
    }
}

/// Optimizing what was optimized changes nothing: the optimizer stops at a
/// fixed point.
pub proof fn lemma_optimize_is_idempotent(m: Model, optimizations: Optimizations)
    ensures
        optimized(optimized(m, optimizations), optimizations) == optimized(m, optimizations),
{
    if optimizations.constant_folding {
        lemma_fully_folded_is_folded(m);
        lemma_fully_folded_unfolds(fully_folded(m));
    }
}

/// A pass leaves a grounded store grounded: it only puts integers in the
/// place of calls.
pub proof fn lemma_pass_keeps_grounded(m: Model)
    requires
        grounded(m, 0),
    ensures
        grounded(fold_pass(m), 0),
{
    assert forall|i: int| 0 <= i < fold_pass(m).len() implies (#[trigger] fold_pass(m)[i]) is Some
        && fold_pass(m)[i]->Some_0.refers_before(i as nat) by {
        assert(m[i] is Some);
    }
}

/// The optimizer leaves a grounded store grounded.
pub proof fn lemma_optimized_keeps_grounded(m: Model, optimizations: Optimizations)
    requires
        grounded(m, 0),
    ensures
        grounded(optimized(m, optimizations), 0),
    decreases calls_in(m),
{
    if optimizations.constant_folding {
        lemma_fully_folded_unfolds(m);
        if !is_folded(m) {
            lemma_pass_makes_progress(m);
            lemma_pass_keeps_grounded(m);
            lemma_optimized_keeps_grounded(fold_pass(m), optimizations);
        }
    }
}

/// The calls that fold among the slots `order`, each with its value, in the
/// order of the slots.
pub open spec fn foldable_in(m: Model, order: Seq<nat>) -> Seq<(nat, i64)>
    decreases order.len(),
{
    if order.len() == 0 {
        Seq::empty()
    } else {
        (match folded(m, order[0]) {
            Some(v) => seq![(order[0], v)],
            None => Seq::empty(),
        }) + foldable_in(m, order.drop_first())
    }
}

/// What the folding visitor has gathered: the calls to replace, each with
/// the integer to put in its place, and whether it found any.
pub struct Findings {
    pub pending: Seq<(nat, i64)>,
    pub changed: bool,
}

/// The visitor of a folding pass. It changes nothing in the store; it notes
/// the calls that fold.
pub struct Folder<ID> {
    pub pending: Vec<(ID, i64)>,
    pub changed: bool,
}

/// The pending replacements with identifiers as positions.
pub open spec fn pending_view<ID: Handle>(pending: Seq<(ID, i64)>) -> Seq<(nat, i64)> {
    Seq::new(pending.len(), |i: int| (pending[i].0.index(), pending[i].1))
}

impl<C: Store> Visitor<C, C::ID, Call<C::ID>> for Folder<C::ID> {
    type State = Findings;

    open spec fn state(&self) -> Findings {
        Findings { pending: pending_view(self.pending@), changed: self.changed }
    }

    open spec fn after(state: Findings, model: Model, at: Position, node: NodeView) -> (
        Findings,
        Model,
        NodeView,
    ) {
        match node {
            NodeView::Call(call) => match folded_call(model, call) {
                Some(v) => (
                    Findings { pending: state.pending.push((at, v)), changed: true },
                    model,
                    node,
                ),
                None => (state, model, node),
            },
            _ => (state, model, node),
        }
    }

    fn visit(&mut self, store: &mut C, id: C::ID, value: &mut Call<C::ID>) {
        let op = match store.get_operator(value.callee) {
            Ok(op) => *op,
            Err(_) => {
                return ;
            },
        };
        let left = match value.left {
            Some(left) => match store.get_i64(left) {
                Ok(left) => *left,
                Err(_) => {
                    return ;
                },
            },
            None => {
                return ;
            },
        };
        let right = match value.right {
            Some(right) => match store.get_i64(right) {
                Ok(right) => *right,
                Err(_) => {
                    return ;
                },
            },
            None => {
                return ;
            },
        };
        let result = apply(op, left, right);
        let ghost before = pending_view(self.pending@);
        self.pending.push((id, result));
        self.changed = true;
        assert(pending_view(self.pending@) =~= before.push((id.index(), result)));
    }
}

/// A folding pass over any slots leaves the store as it is and gathers the
/// calls that fold among them.
pub proof fn lemma_folder_walk<C: Store>(state: Findings, m: Model, order: Seq<nat>)
    ensures
        walk::<Folder<C::ID>, C, C::ID, Call<C::ID>>(state, m, order, Kind::Call) == (
            Findings {
                pending: state.pending + foldable_in(m, order),
                changed: state.changed || foldable_in(m, order).len() > 0,
            },
            m,
        ),
    decreases order.len(),
{
    if order.len() == 0 {
        assert(state.pending + foldable_in(m, order) =~= state.pending);
    } else {
        let at = order[0];
        let rest = order.drop_first();
        match lookup(m, at, Kind::Call) {
            Lookup::Found(node) => {
                let (s1, m1, n1) = <Folder<C::ID> as Visitor<C, C::ID, Call<C::ID>>>::after(
                    state,
                    m,
                    at,
                    node,
                );
                assert(m1 == m && n1 == node);
                assert(put_back(m1, at, n1) =~= m);
                lemma_folder_walk::<C>(s1, m, rest);
                assert(s1.pending + foldable_in(m, rest) =~= state.pending + foldable_in(
                    m,
                    order,
                ));
            },
            _ => {
                lemma_folder_walk::<C>(state, m, rest);
                assert(foldable_in(m, order) =~= foldable_in(m, rest));
            },
        }
    }
}

/// Each call that was gathered folds to the value it was gathered with, and
/// each slot of `order` that folds was gathered.
pub proof fn lemma_foldable_in(m: Model, order: Seq<nat>)
    ensures
        forall|i: int|
            0 <= i < foldable_in(m, order).len() ==> folded(
                m,
                (#[trigger] foldable_in(m, order)[i]).0,
            ) == Some(foldable_in(m, order)[i].1),
        forall|k: int|
            0 <= k < order.len() && folded(m, #[trigger] order[k]) is Some ==> exists|i: int|
                0 <= i < foldable_in(m, order).len() && (#[trigger] foldable_in(m, order)[i]).0
                    == order[k],
    decreases order.len(),
{
    if order.len() > 0 {
        let rest = order.drop_first();
        lemma_foldable_in(m, rest);
        let head = match folded(m, order[0]) {
            Some(v) => seq![(order[0], v)],
            None => Seq::empty(),
        };
        let all = foldable_in(m, order);
        assert(all == head + foldable_in(m, rest));
        assert forall|k: int| 0 <= k < order.len() && folded(m, #[trigger] order[k]) is Some implies exists|
            i: int,
        |
            0 <= i < all.len() && (#[trigger] all[i]).0 == order[k] by {
            if k == 0 {
                assert(all[0].0 == order[0]);
            } else {
                assert(rest[k - 1] == order[k]);
                let i = choose|i: int|
                    0 <= i < foldable_in(m, rest).len() && (#[trigger] foldable_in(m, rest)[i]).0
                        == rest[k - 1];
                assert(all[head.len() + i] == foldable_in(m, rest)[i]);
            }
        }
        assert forall|i: int| 0 <= i < all.len() implies folded(m, (#[trigger] all[i]).0) == Some(
            all[i].1,
        ) by {
            if i >= head.len() {
                assert(all[i] == foldable_in(m, rest)[i - head.len()]);
            }
        }
    }
}

/// One pass of constant folding: the calls that fold are gathered first,
/// then each is replaced by the integer that it folds to.
fn constant_folding<C: Store>(
    context: &mut C,
    replace: &mut Vec<(C::ID, i64)>,
    root: C::ID,
    fixed_point: &mut bool,
) -> (r: Result<C::ID, C::E>)
    requires
        old(context).wf(),
        old(replace)@.len() == 0,
    ensures
        final(context).wf(),
        r matches Ok(id) && id == root,
        final(context).model() == fold_pass(old(context).model()),
        final(replace)@.len() == 0,
        *final(fixed_point) == (*old(fixed_point) && is_folded(old(context).model())),
{
    let ghost m = context.model();
    let ghost order = context.visit_order(Kind::Call);
    let mut folder: Folder<C::ID> = Folder { pending: Vec::new(), changed: false };
    std::mem::swap(&mut folder.pending, replace);
    let ids = context.ids_of(Kind::Call);
    visit_all::<C, Call<C::ID>, Folder<C::ID>>(context, &mut folder, &ids);
    proof {
        let start = Findings { pending: Seq::empty(), changed: false };
        assert(pending_view(old(replace)@) =~= Seq::<(nat, i64)>::empty());
        lemma_folder_walk::<C>(start, m, order);
        lemma_foldable_in(m, order);
        old(context).visit_order_exact(Kind::Call);
        assert(start.pending + foldable_in(m, order) =~= foldable_in(m, order));
    }
    let ghost found = foldable_in(m, order);
    assert(pending_view(folder.pending@) == found);
    assert(context.model() == m);
    if folder.changed {
        *fixed_point = false;
    }
    proof {
        // a call folds just where one was gathered
        assert forall|at: nat| (#[trigger] folded(m, at)) is Some implies exists|i: int|
            0 <= i < found.len() && (#[trigger] found[i]).0 == at by {
            assert(order.contains(at));
            let k = choose|k: int| 0 <= k < order.len() && order[k] == at;
            assert(folded(m, order[k]) is Some);
        }
        if !folder.changed {
            assert forall|at: nat| (#[trigger] folded(m, at)) is None by {
                if folded(m, at) is Some {
                    let i = choose|i: int| 0 <= i < found.len() && (#[trigger] found[i]).0 == at;
                }
            }
        } else {
            assert(folded(m, found[0].0) is Some);
        }
    }
    let mut i: usize = 0;
    while i < folder.pending.len()
        invariant
            context.wf(),
            i <= folder.pending@.len(),
            pending_view(folder.pending@) == found,
            same_shape(m, context.model()),
            forall|k: int| 0 <= k < found.len() ==> folded(m, (#[trigger] found[k]).0) == Some(
                found[k].1,
            ),
            forall|at: int|
                0 <= at < m.len() ==> #[trigger] context.model()[at] == (if exists|k: int|
                    0 <= k < i && (#[trigger] found[k]).0 == at {
                    Some(NodeView::I64(folded(m, at as nat)->Some_0))
                } else {
                    m[at]
                }),
        decreases folder.pending@.len() - i,
    {
        let (id, value) = folder.pending[i];
        let ghost before = context.model();
        assert(found[i as int] == (id.index(), value));
        assert(folded(m, found[i as int].0) == Some(value));
        assert(is_live(before, id.index()));
        match context.replace(id, value) {
            Ok(()) => {},
            Err(e) => {
                return Err(e);
            },
        }
        proof {
            assert forall|at: int| 0 <= at < m.len() implies #[trigger] context.model()[at] == (
            if exists|k: int| 0 <= k < i + 1 && (#[trigger] found[k]).0 == at {
                Some(NodeView::I64(folded(m, at as nat)->Some_0))
            } else {
                m[at]
            }) by {
                if at == id.index() {
                    assert(found[i as int].0 == at);
                } else {
                    assert(context.model()[at] == before[at]);
                    if exists|k: int| 0 <= k < i + 1 && (#[trigger] found[k]).0 == at {
                        let k = choose|k: int| 0 <= k < i + 1 && (#[trigger] found[k]).0 == at;
                        assert(k < i);
                    }
                }
            }
        }
        i += 1;
    }
    proof {
        assert forall|at: int| 0 <= at < m.len() implies context.model()[at] == fold_pass(
            m,
        )[at] by {
            if folded(m, at as nat) is Some {
                let k = choose|k: int| 0 <= k < found.len() && (#[trigger] found[k]).0 == at;
                assert(0 <= k < i && found[k].0 == at);
            } else {
                if exists|k: int| 0 <= k < i && (#[trigger] found[k]).0 == at {
                    let k = choose|k: int| 0 <= k < i && (#[trigger] found[k]).0 == at;
                    assert(folded(m, found[k].0) is Some);
                }
            }
        }
        assert(context.model() =~= fold_pass(m));
    }
    folder.pending.clear();
    std::mem::swap(&mut folder.pending, replace);
    Ok(root)
}

/// Runs the passes that `optimizations` names over the whole store, again
/// and again until a round changes nothing. Calls that fold become the
/// integers that they fold to, under their own identifiers; the root stays
/// the root.
pub fn optimize<C: Store>(context: &mut C, optimizations: &Optimizations, root: C::ID) -> (r:
    Result<C::ID, C::E>)
    requires
        old(context).wf(),
    ensures
        final(context).wf(),
        r matches Ok(id) && id == root,
        final(context).model() == optimized(old(context).model(), *optimizations),
        grounded(old(context).model(), 0) ==> grounded(final(context).model(), 0),
{
    proof {
        if grounded(context.model(), 0) {
            lemma_optimized_keeps_grounded(context.model(), *optimizations);
        }
    }
    let given = root;
    let mut root = root;
    let mut replace: Vec<(C::ID, i64)> = Vec::new();
    loop
        invariant_except_break
            context.wf(),
            replace@.len() == 0,
            root == given,
            optimized(context.model(), *optimizations) == optimized(
                old(context).model(),
                *optimizations,
            ),
        ensures
            context.wf(),
            root == given,
            context.model() == optimized(old(context).model(), *optimizations),
        decreases calls_in(context.model()),
    {
        let ghost before = context.model();
        let mut fixed_point = true;
        if optimizations.constant_folding {
            root = match constant_folding(context, &mut replace, root, &mut fixed_point) {
                Ok(root) => root,
                Err(e) => {
                    return Err(e);
                },
            };
        }
        proof {
            lemma_fully_folded_unfolds(before);
            if optimizations.constant_folding && !fixed_point {
                lemma_pass_makes_progress(before);
            }
        }
        if fixed_point {
            proof {
                if optimizations.constant_folding {
                    assert(is_folded(before));
                    assert(fold_pass(before) =~= before);
                }
            }
            break ;
        }
    }
    Ok(root)
}

} // verus!

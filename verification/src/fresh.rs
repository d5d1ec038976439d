//! What the slots of lowered code belong to: every let slot that a fragment
//! sets, every record slot that it allocates and every number of the constant
//! pool that it uses was handed out while that fragment was lowered. Fragments
//! side by side thus share none of them, and no let slot is set under two types.

use vstd::prelude::*;

use crate::ast::{Node, TokenRange};
use crate::error::ErrorView;
use crate::fragment::{FragmentView, LeafLowering, Scope, SlotsView, SubLowering};
use crate::ir::{sop, IrType, OpView, SimpleOp, TaggedOpView};
use crate::range_loop::{block_op, exit_guard, loop_op};
use crate::types::TypeRepr;

verus! {

/// The counters go on; none of them falls back.
pub open spec fn passes(a: SlotsView, b: SlotsView) -> bool {
    &&& a.lets <= b.lets
    &&& a.records <= b.records
    &&& a.pool.int_lists <= b.pool.int_lists
    &&& a.pool.float_lists <= b.pool.float_lists
    &&& a.pool.bool_lists <= b.pool.bool_lists
    &&& a.pool.string_lists <= b.pool.string_lists
    &&& a.pool.dicts <= b.pool.dicts
}

/// The number was handed out while the counter went from `a` to `b`. A counter
/// that has reached the largest number hands it out again and again.
pub open spec fn given(n: u32, a: u32, b: u32) -> bool {
    a <= n && (b < u32::MAX ==> n < b)
}

/// What an instruction without a body sets or allocates was handed out between
/// the two states.
pub open spec fn simple_owned(op: SimpleOp, a: SlotsView, b: SlotsView) -> bool {
    match op {
        SimpleOp::LetSet { idx, .. } => given(idx, a.lets, b.lets),
        SimpleOp::AllocRootRecord { record_local_idx } => given(
            record_local_idx,
            a.records,
            b.records,
        ),
        SimpleOp::AllocSubRecord { record_local_idx, .. } => given(
            record_local_idx,
            a.records,
            b.records,
        ),
        SimpleOp::AllocScratchRecord { record_local_idx, .. } => given(
            record_local_idx,
            a.records,
            b.records,
        ),
        _ => true,
    }
}

/// What an instruction sets, allocates or numbers, at any depth, was handed out
/// between the two states.
pub open spec fn op_owned(op: TaggedOpView, a: SlotsView, b: SlotsView) -> bool
    decreases op, 0nat,
{
    match op.op {
        OpView::Simple(s) => simple_owned(s, a, b),
        OpView::ConstListInt { idx, .. } => given(idx, a.pool.int_lists, b.pool.int_lists),
        OpView::ConstListFloat { idx, .. } => given(idx, a.pool.float_lists, b.pool.float_lists),
        OpView::ConstListBool { idx, .. } => given(idx, a.pool.bool_lists, b.pool.bool_lists),
        OpView::ConstListString { idx, .. } => given(
            idx,
            a.pool.string_lists,
            b.pool.string_lists,
        ),
        OpView::ConstDict { idx, .. } => given(idx, a.pool.dicts, b.pool.dicts),
        OpView::Block { body, .. } => owned(body, a, b),
        OpView::Loop { body, .. } => owned(body, a, b),
        OpView::If { then_body, else_body, .. } => owned(then_body, a, b) && owned(
            else_body,
            a,
            b,
        ),
        _ => true,
    }
}

/// What the instructions set, allocate or number was handed out between the two
/// states.
pub open spec fn owned(ops: Seq<TaggedOpView>, a: SlotsView, b: SlotsView) -> bool
    decreases ops, 1nat,
{
    forall|i: int| 0 <= i < ops.len() ==> op_owned(#[trigger] ops[i], a, b)
}

/// An instruction sets the let slot under the type, at any depth.
pub open spec fn op_sets(op: TaggedOpView, n: u32, t: IrType) -> bool
    decreases op, 0nat,
{
    match op.op {
        OpView::Simple(SimpleOp::LetSet { idx, ty }) => idx == n && ty == t,
        OpView::Block { body, .. } => sets(body, n, t),
        OpView::Loop { body, .. } => sets(body, n, t),
        OpView::If { then_body, else_body, .. } => sets(then_body, n, t) || sets(
            else_body,
            n,
            t,
        ),
        _ => false,
    }
}

/// Some instruction sets the let slot under the type.
pub open spec fn sets(ops: Seq<TaggedOpView>, n: u32, t: IrType) -> bool
    decreases ops, 1nat,
{
    exists|i: int| 0 <= i < ops.len() && op_sets(#[trigger] ops[i], n, t)
}

/// No let slot is set under two types.
pub open spec fn one_typed(ops: Seq<TaggedOpView>) -> bool {
    forall|n: u32, t: IrType, u: IrType|
        #[trigger] sets(ops, n, t) && #[trigger] sets(ops, n, u) ==> t == u
}

/// Beside one slot under one type, the instructions set only slots handed out
/// between the two states.
pub open spec fn sets_beside(
    ops: Seq<TaggedOpView>,
    slot: u32,
    ty: IrType,
    a: SlotsView,
    b: SlotsView,
) -> bool {
    forall|n: u32, t: IrType| #[trigger]
        sets(ops, n, t) ==> (n == slot && t == ty) || given(n, a.lets, b.lets)
}

/// The fragment lowered at `at` sets, allocates and numbers only what was
/// handed out since `from`, and sets each let slot under one type.
pub open spec fn fresh_since(from: SlotsView, at: SlotsView, f: FragmentView) -> bool {
    &&& passes(at, f.slots)
    &&& owned(f.ops, from, f.slots)
    &&& f.slots.lets < u32::MAX ==> one_typed(f.ops)
}

/// The outcome is an error, or a fragment with slots handed out since `from`.
pub open spec fn freshly(
    from: SlotsView,
    at: SlotsView,
    r: Result<FragmentView, ErrorView>,
) -> bool {
    r matches Ok(f) ==> fresh_since(from, at, f)
}

/// The outcome is an error, or a fragment with slots of its own.
pub open spec fn fresh(at: SlotsView, r: Result<FragmentView, ErrorView>) -> bool {
    freshly(at, at, r)
}

/// The outcome is an error, nothing, or a fragment with slots of its own.
pub open spec fn fresh_maybe(at: SlotsView, r: Result<Option<FragmentView>, ErrorView>) -> bool {
    r matches Ok(Some(f)) ==> fresh_since(at, at, f)
}

/// Every lowering of a contained expression or closure has slots of its own.
pub open spec fn freshening<L: SubLowering>(low: L) -> bool {
    &&& forall|node: Node, scope: Scope<'_>, at: SlotsView|
        fresh(at, #[trigger] low.lowered(node, scope, at))
    &&& forall|
        node: Node,
        param_tys: Seq<IrType>,
        ret_ty: IrType,
        scope: Scope<'_>,
        at: SlotsView,
    |
        fresh(at, #[trigger] low.closure_lowered(node, param_tys, ret_ty, scope, at))
    &&& forall|
        name: Seq<char>,
        body: Node,
        param_tys: Seq<IrType>,
        ret_ty: IrType,
        expected: Option<TypeRepr>,
        scope: Scope<'_>,
        at: SlotsView,
    |
        fresh(at, #[trigger] low.unary_lowered(name, body, param_tys, ret_ty, expected, scope, at))
}

proof fn lemma_op_owned_wider(
    op: TaggedOpView,
    a: SlotsView,
    b: SlotsView,
    c: SlotsView,
    d: SlotsView,
)
    requires
        op_owned(op, a, b),
        passes(c, a),
        passes(b, d),
    ensures
        op_owned(op, c, d),
    decreases op, 0nat,
{
    match op.op {
        OpView::Block { body, .. } => {
            lemma_owned_wider(body, a, b, c, d);
        },
        OpView::Loop { body, .. } => {
            lemma_owned_wider(body, a, b, c, d);
        },
        OpView::If { then_body, else_body, .. } => {
            lemma_owned_wider(then_body, a, b, c, d);
            lemma_owned_wider(else_body, a, b, c, d);
        },
        _ => {},
    }
}

/// What was handed out between two states was so between wider ones.
pub broadcast proof fn lemma_owned_wider(
    ops: Seq<TaggedOpView>,
    a: SlotsView,
    b: SlotsView,
    c: SlotsView,
    d: SlotsView,
)
    requires
        #[trigger] owned(ops, a, b),
        passes(c, a),
        passes(b, d),
    ensures
        #[trigger] owned(ops, c, d),
    decreases ops, 1nat,
{
    assert forall|i: int| 0 <= i < ops.len() implies op_owned(#[trigger] ops[i], c, d) by {
        lemma_op_owned_wider(ops[i], a, b, c, d);
    }
}

/// No instruction sets nothing.
pub broadcast proof fn lemma_owned_empty(a: SlotsView, b: SlotsView)
    ensures
        #[trigger] owned(Seq::<TaggedOpView>::empty(), a, b),
{
}

/// The last instruction sets its own slots too.
pub broadcast proof fn lemma_owned_push(
    s: Seq<TaggedOpView>,
    op: TaggedOpView,
    a: SlotsView,
    b: SlotsView,
)
    ensures
        #[trigger] owned(s.push(op), a, b) == (owned(s, a, b) && op_owned(op, a, b)),
{
    if owned(s.push(op), a, b) {
        assert forall|i: int| 0 <= i < s.len() implies op_owned(#[trigger] s[i], a, b) by {
            assert(s.push(op)[i] == s[i]);
        }
        assert(s.push(op)[s.len() as int] == op);
    }
}

/// Both parts set their own slots.
pub broadcast proof fn lemma_owned_concat(
    s: Seq<TaggedOpView>,
    t: Seq<TaggedOpView>,
    a: SlotsView,
    b: SlotsView,
)
    ensures
        #[trigger] owned(s + t, a, b) == (owned(s, a, b) && owned(t, a, b)),
{
    if owned(s + t, a, b) {
        assert forall|i: int| 0 <= i < s.len() implies op_owned(#[trigger] s[i], a, b) by {
            assert((s + t)[i] == s[i]);
        }
        assert forall|i: int| 0 <= i < t.len() implies op_owned(#[trigger] t[i], a, b) by {
            assert((s + t)[s.len() + i] == t[i]);
        }
    }
}

/// An instruction without a body.
pub broadcast proof fn lemma_simple_owned(
    op: SimpleOp,
    range: TokenRange,
    a: SlotsView,
    b: SlotsView,
)
    ensures
        #[trigger] op_owned(sop(op, range), a, b) == simple_owned(op, a, b),
{
}

/// A block sets what its body sets.
pub broadcast proof fn lemma_block_owned(
    body: Seq<TaggedOpView>,
    range: TokenRange,
    a: SlotsView,
    b: SlotsView,
)
    ensures
        #[trigger] op_owned(block_op(body, range), a, b) == owned(body, a, b),
{
}

/// A loop sets what its body sets.
pub broadcast proof fn lemma_loop_owned(
    body: Seq<TaggedOpView>,
    range: TokenRange,
    a: SlotsView,
    b: SlotsView,
)
    ensures
        #[trigger] op_owned(loop_op(body, range), a, b) == owned(body, a, b),
{
    let turn = TaggedOpView { op: OpView::Loop { result_ty: None, body }, range };
    let inner = seq![turn];
    assert(op_owned(turn, a, b) == owned(body, a, b));
    assert(inner[0] == turn);
    assert(owned(inner, a, b) == op_owned(turn, a, b));
    assert(loop_op(body, range).op == OpView::Block { result_ty: None, body: inner });
}

/// The guard of a loop sets nothing.
pub broadcast proof fn lemma_guard_owned(
    start: u32,
    end: u32,
    ty: IrType,
    depth: u32,
    range: TokenRange,
    a: SlotsView,
    b: SlotsView,
)
    ensures
        #[trigger] owned(exit_guard(start, end, ty, depth, range), a, b),
{
}

proof fn lemma_op_set_is_given(
    op: TaggedOpView,
    n: u32,
    t: IrType,
    a: SlotsView,
    b: SlotsView,
)
    requires
        op_owned(op, a, b),
        op_sets(op, n, t),
    ensures
        given(n, a.lets, b.lets),
    decreases op, 0nat,
{
    match op.op {
        OpView::Block { body, .. } => {
            lemma_set_is_given(body, n, t, a, b);
        },
        OpView::Loop { body, .. } => {
            lemma_set_is_given(body, n, t, a, b);
        },
        OpView::If { then_body, else_body, .. } => {
            if sets(then_body, n, t) {
                lemma_set_is_given(then_body, n, t, a, b);
            } else {
                lemma_set_is_given(else_body, n, t, a, b);
            }
        },
        _ => {},
    }
}

/// What is set was handed out.
pub broadcast proof fn lemma_set_is_given(
    ops: Seq<TaggedOpView>,
    n: u32,
    t: IrType,
    a: SlotsView,
    b: SlotsView,
)
    requires
        #[trigger] owned(ops, a, b),
        #[trigger] sets(ops, n, t),
    ensures
        given(n, a.lets, b.lets),
    decreases ops, 1nat,
{
    let i = choose|i: int| 0 <= i < ops.len() && op_sets(#[trigger] ops[i], n, t);
    lemma_op_set_is_given(ops[i], n, t, a, b);
}

/// No instruction sets nothing.
pub broadcast proof fn lemma_sets_empty(n: u32, t: IrType)
    ensures
        !(#[trigger] sets(Seq::<TaggedOpView>::empty(), n, t)),
{
}

/// The last instruction may set a slot too.
pub broadcast proof fn lemma_sets_push(s: Seq<TaggedOpView>, op: TaggedOpView, n: u32, t: IrType)
    ensures
        #[trigger] sets(s.push(op), n, t) == (sets(s, n, t) || op_sets(op, n, t)),
{
    let all = s.push(op);
    if sets(s, n, t) {
        let i = choose|i: int| 0 <= i < s.len() && op_sets(#[trigger] s[i], n, t);
        assert(op_sets(all[i], n, t));
    }
    if op_sets(op, n, t) {
        assert(op_sets(all[s.len() as int], n, t));
    }
    if sets(all, n, t) {
        let i = choose|i: int| 0 <= i < all.len() && op_sets(#[trigger] all[i], n, t);
        if i < s.len() {
            assert(op_sets(s[i], n, t));
        }
    }
}

/// Either part may set a slot.
pub broadcast proof fn lemma_sets_concat(
    s: Seq<TaggedOpView>,
    r: Seq<TaggedOpView>,
    n: u32,
    t: IrType,
)
    ensures
        #[trigger] sets(s + r, n, t) == (sets(s, n, t) || sets(r, n, t)),
{
    let all = s + r;
    if sets(s, n, t) {
        let i = choose|i: int| 0 <= i < s.len() && op_sets(#[trigger] s[i], n, t);
        assert(op_sets(all[i], n, t));
    }
    if sets(r, n, t) {
        let i = choose|i: int| 0 <= i < r.len() && op_sets(#[trigger] r[i], n, t);
        assert(op_sets(all[s.len() + i], n, t));
    }
    if sets(all, n, t) {
        let i = choose|i: int| 0 <= i < all.len() && op_sets(#[trigger] all[i], n, t);
        if i < s.len() {
            assert(op_sets(s[i], n, t));
        } else {
            assert(op_sets(r[i - s.len()], n, t));
        }
    }
}

/// An instruction without a body sets its slot.
pub broadcast proof fn lemma_simple_sets(op: SimpleOp, range: TokenRange, n: u32, t: IrType)
    ensures
        #[trigger] op_sets(sop(op, range), n, t) == (op == SimpleOp::LetSet { idx: n, ty: t }),
{
}

/// A block sets what its body sets.
pub broadcast proof fn lemma_block_sets(
    body: Seq<TaggedOpView>,
    range: TokenRange,
    n: u32,
    t: IrType,
)
    ensures
        #[trigger] op_sets(block_op(body, range), n, t) == sets(body, n, t),
{
}

/// A loop sets what its body sets.
pub broadcast proof fn lemma_loop_sets(
    body: Seq<TaggedOpView>,
    range: TokenRange,
    n: u32,
    t: IrType,
)
    ensures
        #[trigger] op_sets(loop_op(body, range), n, t) == sets(body, n, t),
{
    let turn = TaggedOpView { op: OpView::Loop { result_ty: None, body }, range };
    let inner = seq![turn];
    assert(op_sets(turn, n, t) == sets(body, n, t));
    assert(inner[0] == turn);
    assert(loop_op(body, range).op == OpView::Block { result_ty: None, body: inner });
    if sets(inner, n, t) {
        let i = choose|i: int| 0 <= i < inner.len() && op_sets(#[trigger] inner[i], n, t);
        assert(inner[i] == turn);
    }
    if op_sets(turn, n, t) {
        assert(op_sets(inner[0], n, t));
    }
}

pub broadcast group group_owned {
    lemma_owned_wider,
    lemma_owned_empty,
    lemma_owned_push,
    lemma_owned_concat,
    lemma_simple_owned,
    lemma_block_owned,
    lemma_loop_owned,
    lemma_guard_owned,
    lemma_set_is_given,
    lemma_sets_empty,
    lemma_sets_push,
    lemma_sets_concat,
    lemma_simple_sets,
    lemma_block_sets,
    lemma_loop_sets,
}

/// The lowering of leaf expressions has slots of its own.
pub proof fn law_leaf_lowering_is_fresh()
    ensures
        freshening(LeafLowering),
{
    broadcast use group_owned;

    assert forall|node: Node, scope: Scope<'_>, at: SlotsView| fresh(
        at,
        #[trigger] LeafLowering.lowered(node, scope, at),
    ) by {
    }
}

// ---------------------------------------------------------------------------
// What this is for.
// ---------------------------------------------------------------------------

/// An instruction allocates the record slot, at any depth.
pub open spec fn op_allocates(op: TaggedOpView, n: u32) -> bool
    decreases op, 0nat,
{
    match op.op {
        OpView::Simple(SimpleOp::AllocRootRecord { record_local_idx }) => record_local_idx == n,
        OpView::Simple(SimpleOp::AllocSubRecord { record_local_idx, .. }) => record_local_idx == n,
        OpView::Simple(SimpleOp::AllocScratchRecord { record_local_idx, .. }) => record_local_idx
            == n,
        OpView::Block { body, .. } => allocates(body, n),
        OpView::Loop { body, .. } => allocates(body, n),
        OpView::If { then_body, else_body, .. } => allocates(then_body, n) || allocates(
            else_body,
            n,
        ),
        _ => false,
    }
}

/// Some instruction allocates the record slot.
pub open spec fn allocates(ops: Seq<TaggedOpView>, n: u32) -> bool
    decreases ops, 1nat,
{
    exists|i: int| 0 <= i < ops.len() && op_allocates(#[trigger] ops[i], n)
}

proof fn lemma_op_allocation_is_given(op: TaggedOpView, n: u32, a: SlotsView, b: SlotsView)
    requires
        op_owned(op, a, b),
    ensures
        op_allocates(op, n) ==> given(n, a.records, b.records),
    decreases op, 0nat,
{
    match op.op {
        OpView::Block { body, .. } => {
            lemma_allocation_is_given(body, n, a, b);
        },
        OpView::Loop { body, .. } => {
            lemma_allocation_is_given(body, n, a, b);
        },
        OpView::If { then_body, else_body, .. } => {
            lemma_allocation_is_given(then_body, n, a, b);
            lemma_allocation_is_given(else_body, n, a, b);
        },
        _ => {},
    }
}

proof fn lemma_allocation_is_given(ops: Seq<TaggedOpView>, n: u32, a: SlotsView, b: SlotsView)
    requires
        owned(ops, a, b),
    ensures
        allocates(ops, n) ==> given(n, a.records, b.records),
    decreases ops, 1nat,
{
    if allocates(ops, n) {
        let i = choose|i: int| 0 <= i < ops.len() && op_allocates(#[trigger] ops[i], n);
        lemma_op_allocation_is_given(ops[i], n, a, b);
    }
}

/// A fragment sets no let slot and allocates no record slot that was handed out
/// before it: what an enclosing expression keeps there stays.
pub proof fn law_earlier_slots_stay(at: SlotsView, f: FragmentView, n: u32, t: IrType)
    requires
        fresh_since(at, at, f),
    ensures
        n < at.lets ==> !sets(f.ops, n, t),
        n < at.records ==> !allocates(f.ops, n),
{
    broadcast use group_owned;

    lemma_allocation_is_given(f.ops, n, at, f.slots);
}

/// What one fragment sets or allocates, a fragment lowered behind it does not.
pub proof fn law_neighbours_share_no_slot(
    at: SlotsView,
    f: FragmentView,
    g: FragmentView,
    n: u32,
    t: IrType,
    u: IrType,
)
    requires
        fresh_since(at, at, f),
        fresh_since(f.slots, f.slots, g),
        f.slots.lets < u32::MAX,
        f.slots.records < u32::MAX,
    ensures
        sets(f.ops, n, t) ==> !sets(g.ops, n, u),
        allocates(f.ops, n) ==> !allocates(g.ops, n),
{
    broadcast use group_owned;

    lemma_allocation_is_given(f.ops, n, at, f.slots);
    lemma_allocation_is_given(g.ops, n, f.slots, g.slots);
}

} // verus!

//! Fused accumulator loops over `range(..)` pipelines.
//!
//! A pipeline consumer never builds the list it consumes. The emitted stream
//! keeps a counter, an end bound and an accumulator in let slots:
//!
//! ```text
//! start = ..; end = ..; acc = ..
//! block {
//!   loop {
//!     if start >= end { br 1 }
//!     block {
//!       <stages>            // a failed filter branches to the end of this block
//!       <accumulator update>
//!     }
//!     start += 1
//!     br 0
//!   }
//! }
//! push acc
//! ```

use vstd::prelude::*;

use crate::ast::{CallArg, ClosureParam, Node, TokenRange};
use crate::chain::{
    combine_op, combine_operator_to_op, ChainStage, NestedRangeShape, OuterCombine, RangeChain,
    RowFold, StageMethod,
};
use crate::error::{ErrorView, LoweringError};
use crate::fragment::{
    bind, emit_get, emit_set, int_top, let_get, let_set, lower_int, lower_valued, one_op, outcome,
    slot, slot_at, valued, Fragment, FragmentView, Scope, Slots, SlotsView, SubLowering,
};
use crate::ir::{
    emit, emit_all, emit_simple, ops_view, sop, IrType, Op, OpView, SimpleOp, TaggedOp,
    TaggedOpView,
};
use crate::text::{decimal, decimal_chars, join2, join3};

verus! {

// ---------------------------------------------------------------------------
// Pieces shared by all loops.
// ---------------------------------------------------------------------------

/// `if let[start] >= let[end] { br depth }`, on integer slots of type `ty`.
pub open spec fn exit_guard(
    start: u32,
    end: u32,
    ty: IrType,
    depth: u32,
    range: TokenRange,
) -> Seq<TaggedOpView> {
    seq![
        let_get(start, ty, range),
        let_get(end, ty, range),
        sop(SimpleOp::Ge(ty), range),
        sop(SimpleOp::BrIf { label_depth: depth }, range),
    ]
}

/// Appends [`exit_guard`].
pub fn emit_exit_guard(
    start: u32,
    end: u32,
    ty: IrType,
    depth: u32,
    range: TokenRange,
    out: &mut Vec<TaggedOp>,
)
    ensures
        ops_view(final(out)@) == ops_view(old(out)@) + exit_guard(start, end, ty, depth, range),
{
    emit_get(out, start, ty, range);
    emit_get(out, end, ty, range);
    emit_simple(out, SimpleOp::Ge(ty), range);
    emit_simple(out, SimpleOp::BrIf { label_depth: depth }, range);
    assert(ops_view(out@) =~= ops_view(old(out)@) + exit_guard(start, end, ty, depth, range));
}

/// Appends the loop-exit guard of an `I64` loop.
pub fn emit_ge_brif(
    start_let: u32,
    end_let: u32,
    label_depth: u32,
    range: TokenRange,
    out: &mut Vec<TaggedOp>,
)
    ensures
        ops_view(final(out)@) == ops_view(old(out)@) + exit_guard(
            start_let,
            end_let,
            IrType::I64,
            label_depth,
            range,
        ),
{
    emit_exit_guard(start_let, end_let, IrType::I64, label_depth, range, out);
}

/// `let[acc] = let[acc] + let[cell]` on `I64` slots.
pub open spec fn add_cell(acc: u32, cell: u32, range: TokenRange) -> Seq<TaggedOpView> {
    seq![
        let_get(acc, IrType::I64, range),
        let_get(cell, IrType::I64, range),
        sop(SimpleOp::Add(IrType::I64), range),
        let_set(acc, IrType::I64, range),
    ]
}

/// Appends [`add_cell`].
pub fn emit_acc_add_cell(acc_let: u32, cell_let: u32, range: TokenRange, out: &mut Vec<TaggedOp>)
    ensures
        ops_view(final(out)@) == ops_view(old(out)@) + add_cell(acc_let, cell_let, range),
{
    emit_get(out, acc_let, IrType::I64, range);
    emit_get(out, cell_let, IrType::I64, range);
    emit_simple(out, SimpleOp::Add(IrType::I64), range);
    emit_set(out, acc_let, IrType::I64, range);
    assert(ops_view(out@) =~= ops_view(old(out)@) + add_cell(acc_let, cell_let, range));
}

/// `let[counter] = let[counter] + 1; br 0` on an `I64` slot.
pub open spec fn step_and_loop(counter: u32, range: TokenRange) -> Seq<TaggedOpView> {
    seq![
        let_get(counter, IrType::I64, range),
        sop(SimpleOp::ConstI64(1), range),
        sop(SimpleOp::Add(IrType::I64), range),
        let_set(counter, IrType::I64, range),
        sop(SimpleOp::Br { label_depth: 0 }, range),
    ]
}

/// Appends [`step_and_loop`].
pub fn emit_incr_and_loop(counter_let: u32, range: TokenRange, out: &mut Vec<TaggedOp>)
    ensures
        ops_view(final(out)@) == ops_view(old(out)@) + step_and_loop(counter_let, range),
{
    emit_get(out, counter_let, IrType::I64, range);
    emit_simple(out, SimpleOp::ConstI64(1), range);
    emit_simple(out, SimpleOp::Add(IrType::I64), range);
    emit_set(out, counter_let, IrType::I64, range);
    emit_simple(out, SimpleOp::Br { label_depth: 0 }, range);
    assert(ops_view(out@) =~= ops_view(old(out)@) + step_and_loop(counter_let, range));
}

/// A body wrapped in a result-less block.
pub open spec fn block_op(body: Seq<TaggedOpView>, range: TokenRange) -> TaggedOpView {
    TaggedOpView { op: OpView::Block { result_ty: None, body }, range }
}

/// A body wrapped as `block { loop { body } }`.
pub open spec fn loop_op(body: Seq<TaggedOpView>, range: TokenRange) -> TaggedOpView {
    block_op(
        seq![TaggedOpView { op: OpView::Loop { result_ty: None, body }, range }],
        range,
    )
}

/// Appends `block { body }`.
pub fn emit_block(body: Vec<TaggedOp>, range: TokenRange, out: &mut Vec<TaggedOp>)
    ensures
        ops_view(final(out)@) == ops_view(old(out)@).push(block_op(ops_view(body@), range)),
{
    emit(out, Op::Block { result_ty: None, body }, range);
}

/// Appends `block { loop { body } }`.
pub fn emit_loop(body: Vec<TaggedOp>, range: TokenRange, out: &mut Vec<TaggedOp>)
    ensures
        ops_view(final(out)@) == ops_view(old(out)@).push(loop_op(ops_view(body@), range)),
{
    let ghost inner = ops_view(body@);
    let mut outer: Vec<TaggedOp> = Vec::new();
    emit(&mut outer, Op::Loop { result_ty: None, body }, range);
    assert(ops_view(outer@) =~= seq![
        TaggedOpView { op: OpView::Loop { result_ty: None, body: inner }, range },
    ]);
    emit_block(outer, range, out);
}

/// The value of the first bound: the first of two arguments, else zero.
pub open spec fn start_value<L: SubLowering>(
    low: L,
    args: Seq<CallArg>,
    range: TokenRange,
    scope: Scope<'_>,
    at: SlotsView,
) -> Result<FragmentView, ErrorView> {
    if args.len() == 2 {
        int_top(low.lowered(args[0].value, scope, at), range)
    } else {
        Ok(
            FragmentView {
                ops: seq![sop(SimpleOp::ConstI64(0), range)],
                ty: Some(IrType::I64),
                slots: at,
            },
        )
    }
}

/// The value of the second bound: the last argument.
pub open spec fn end_value<L: SubLowering>(
    low: L,
    args: Seq<CallArg>,
    range: TokenRange,
    scope: Scope<'_>,
    at: SlotsView,
) -> Result<FragmentView, ErrorView> {
    int_top(low.lowered(args.last().value, scope, at), range)
}

/// Lowers the first bound of a range.
pub fn lower_start_value<L: SubLowering>(
    low: &L,
    args: &Vec<CallArg>,
    range: TokenRange,
    scope: &Scope<'_>,
    at: &Slots,
) -> (r: Result<Fragment, LoweringError>)
    ensures
        outcome(r) == start_value(*low, args@, range, *scope, at@),
{
    if args.len() == 2 {
        lower_int(low, &args[0].value, range, scope, at)
    } else {
        Ok(one_op(SimpleOp::ConstI64(0), IrType::I64, range, at))
    }
}

/// Lowers the second bound of a range.
pub fn lower_end_value<L: SubLowering>(
    low: &L,
    args: &Vec<CallArg>,
    range: TokenRange,
    scope: &Scope<'_>,
    at: &Slots,
) -> (r: Result<Fragment, LoweringError>)
    requires
        args@.len() >= 1,
    ensures
        outcome(r) == end_value(*low, args@, range, *scope, at@),
{
    lower_int(low, &args[args.len() - 1].value, range, scope, at)
}

/// A value stored into a let slot.
pub open spec fn stored(
    r: Result<FragmentView, ErrorView>,
    target: u32,
    ty: IrType,
    range: TokenRange,
) -> Result<FragmentView, ErrorView> {
    match r {
        Err(e) => Err(e),
        Ok(f) => Ok(
            FragmentView { ops: f.ops.push(let_set(target, ty, range)), ty: None, slots: f.slots },
        ),
    }
}

/// One bound of a range, stored into `target`.
pub open spec fn range_bound<L: SubLowering>(
    low: L,
    args: Seq<CallArg>,
    is_start: bool,
    target: u32,
    range: TokenRange,
    scope: Scope<'_>,
    at: SlotsView,
) -> Result<FragmentView, ErrorView> {
    stored(
        if is_start {
            start_value(low, args, range, scope, at)
        } else {
            end_value(low, args, range, scope, at)
        },
        target,
        IrType::I64,
        range,
    )
}

/// Lowers one bound of a range into a let slot.
pub fn emit_range_bound<L: SubLowering>(
    range_args: &Vec<CallArg>,
    is_start: bool,
    target_let: u32,
    range: TokenRange,
    scope: &Scope<'_>,
    at: &Slots,
    low: &L,
) -> (r: Result<Fragment, LoweringError>)
    requires
        range_args@.len() >= 1,
    ensures
        outcome(r) == range_bound(
            *low,
            range_args@,
            is_start,
            target_let,
            range,
            *scope,
            at@,
        ),
{
    let value = if is_start {
        lower_start_value(low, range_args, range, scope, at)
    } else {
        lower_end_value(low, range_args, range, scope, at)
    };
    match value {
        Err(e) => Err(e),
        Ok(f) => {
            let mut ops = f.ops;
            emit_set(&mut ops, target_let, IrType::I64, range);
            Ok(Fragment { ops, ty: None, slots: f.slots })
        },
    }
}

// ---------------------------------------------------------------------------
// Pipeline stages.
// ---------------------------------------------------------------------------

/// The state between two stages: what has been emitted, and the slot and type
/// of the running element.
pub ghost struct StageState {
    pub ops: Seq<TaggedOpView>,
    pub idx: u32,
    pub ty: IrType,
    pub slots: SlotsView,
}

/// The running element bound to a closure parameter, then the body's value.
pub open spec fn stage_value<L: SubLowering>(
    low: L,
    stage: ChainStage<'_>,
    scope: Scope<'_>,
    st: StageState,
) -> Result<FragmentView, ErrorView> {
    valued(
        low.lowered(
            *stage.closure_body,
            scope.with(stage.closure_params@[0].name, st.slots.lets, st.ty),
            st.slots.after(1),
        ),
        "range-chain "@ + stage.method.text() + ": closure body produced no value"@,
        stage.closure_body.range,
    )
}

/// What one stage adds. A `map` stage stores the body's value into a fresh
/// slot, which becomes the running element; a `filter` stage branches to the
/// end of the enclosing block when its predicate is false.
pub open spec fn run_stage<L: SubLowering>(
    low: L,
    stage: ChainStage<'_>,
    range: TokenRange,
    scope: Scope<'_>,
    st: StageState,
) -> Result<StageState, ErrorView> {
    match stage_value(low, stage, scope, st) {
        Err(e) => Err(e),
        Ok(f) => {
            let ty = f.ty->0;
            let ops = st.ops.push(let_get(st.idx, st.ty, range)).push(
                let_set(st.slots.lets, st.ty, range),
            ) + f.ops;
            match stage.method {
                StageMethod::Transform => Ok(
                    StageState {
                        ops: ops.push(let_set(f.slots.lets, ty, stage.closure_body.range)),
                        idx: f.slots.lets,
                        ty,
                        slots: f.slots.after(1),
                    },
                ),
                StageMethod::Retain => if ty != IrType::Bool {
                    Err(
                        ErrorView::UnsupportedExpr {
                            kind: "range-chain filter predicate must return Bool, got "@
                                + ty.tag(),
                            range,
                        },
                    )
                } else {
                    Ok(
                        StageState {
                            ops: ops.push(sop(SimpleOp::ConstBool(false), range)).push(
                                sop(SimpleOp::Eq(IrType::Bool), range),
                            ).push(sop(SimpleOp::BrIf { label_depth: 0 }, range)),
                            idx: st.idx,
                            ty: st.ty,
                            slots: f.slots,
                        },
                    )
                },
            }
        },
    }
}

/// What a sequence of stages adds, in source order.
pub open spec fn run_stages<L: SubLowering>(
    low: L,
    stages: Seq<ChainStage<'_>>,
    range: TokenRange,
    scope: Scope<'_>,
    st: StageState,
) -> Result<StageState, ErrorView>
    decreases stages.len(),
{
    if stages.len() == 0 {
        Ok(st)
    } else {
        match run_stages(low, stages.drop_last(), range, scope, st) {
            Err(e) => Err(e),
            Ok(mid) => run_stage(low, stages.last(), range, scope, mid),
        }
    }
}

/// The executable stage state; its instructions go to a separate buffer.
struct Running {
    idx: u32,
    ty: IrType,
    slots: Slots,
}

spec fn running_view(ops: Seq<TaggedOp>, st: Running) -> StageState {
    StageState { ops: ops_view(ops), idx: st.idx, ty: st.ty, slots: st.slots@ }
}

fn emit_stage<L: SubLowering>(
    low: &L,
    stage: &ChainStage<'_>,
    range: TokenRange,
    scope: &Scope<'_>,
    st: Running,
    out: &mut Vec<TaggedOp>,
) -> (r: Result<Running, LoweringError>)
    requires
        stage.closure_params@.len() >= 1,
    ensures
        match r {
            Ok(next) => run_stage(*low, *stage, range, *scope, running_view(old(out)@, st)) == Ok::<
                StageState,
                ErrorView,
            >(running_view(final(out)@, next)),
            Err(e) => run_stage(*low, *stage, range, *scope, running_view(old(out)@, st)) == Err::<
                StageState,
                ErrorView,
            >(e@),
        },
{
    let param_let: u32 = st.slots.lets;
    emit_get(out, st.idx, st.ty, range);
    emit_set(out, param_let, st.ty, range);
    let inner = bind(scope, &stage.closure_params[0].name, param_let, st.ty);
    let missing: String = join3(
        "range-chain ",
        stage.method.name(),
        ": closure body produced no value",
    );
    let (f, ty) = match lower_valued(
        low,
        stage.closure_body,
        missing.as_str(),
        &inner,
        &st.slots.reserve(1),
    ) {
        Err(e) => {
            return Err(e);
        },
        Ok(v) => v,
    };
    let Fragment { ops, slots, .. } = f;
    emit_all(out, ops);
    match stage.method {
        StageMethod::Transform => {
            emit_set(out, slots.lets, ty, stage.closure_body.range);
            Ok(Running { idx: slots.lets, ty, slots: slots.reserve(1) })
        },
        StageMethod::Retain => match ty {
            IrType::Bool => {
                emit_simple(out, SimpleOp::ConstBool(false), range);
                emit_simple(out, SimpleOp::Eq(IrType::Bool), range);
                emit_simple(out, SimpleOp::BrIf { label_depth: 0 }, range);
                Ok(Running { idx: st.idx, ty: st.ty, slots })
            },
            other => Err(
                LoweringError::UnsupportedExpr {
                    kind: join2("range-chain filter predicate must return Bool, got ", other.name()),
                    range,
                },
            ),
        },
    }
}

/// Every stage carries exactly one closure parameter.
pub open spec fn stages_unary(stages: Seq<ChainStage<'_>>) -> bool {
    forall|i: int|
        0 <= i < stages.len() ==> (#[trigger] stages[i]).closure_params@.len() == 1
}

fn emit_stages<L: SubLowering>(
    low: &L,
    stages: &Vec<ChainStage<'_>>,
    range: TokenRange,
    scope: &Scope<'_>,
    st: Running,
    out: &mut Vec<TaggedOp>,
) -> (r: Result<Running, LoweringError>)
    requires
        stages_unary(stages@),
    ensures
        match r {
            Ok(next) => run_stages(
                *low,
                stages@,
                range,
                *scope,
                running_view(old(out)@, st),
            ) == Ok::<
                StageState,
                ErrorView,
            >(running_view(final(out)@, next)),
            Err(e) => run_stages(
                *low,
                stages@,
                range,
                *scope,
                running_view(old(out)@, st),
            ) == Err::<
                StageState,
                ErrorView,
            >(e@),
        },
{
    let ghost first = running_view(out@, st);
    let mut cur = st;
    let mut i: usize = 0;
    assert(stages@.take(0) =~= Seq::empty());
    while i < stages.len()
        invariant
            i <= stages.len(),
            stages_unary(stages@),
            first == running_view(old(out)@, st),
            run_stages(*low, stages@.take(i as int), range, *scope, first) == Ok::<
                StageState,
                ErrorView,
            >(running_view(out@, cur)),
        decreases stages.len() - i,
    {
        assert(stages@.take(i + 1).drop_last() =~= stages@.take(i as int));
        assert(stages@.take(i + 1).last() == stages@[i as int]);
        match emit_stage(low, &stages[i], range, scope, cur, out) {
            Err(e) => {
                proof {
                    lemma_stages_prefix_error(*low, stages@, i + 1, range, *scope, first);
                }
                return Err(e);
            },
            Ok(next) => {
                cur = next;
            },
        }
        i += 1;
    }
    assert(stages@.take(stages@.len() as int) =~= stages@);
    Ok(cur)
}

/// A failing prefix of the stages fails the whole.
proof fn lemma_stages_prefix_error<L: SubLowering>(
    low: L,
    stages: Seq<ChainStage<'_>>,
    k: int,
    range: TokenRange,
    scope: Scope<'_>,
    st: StageState,
)
    requires
        0 <= k <= stages.len(),
        run_stages(low, stages.take(k), range, scope, st) is Err,
    ensures
        run_stages(low, stages, range, scope, st) == run_stages(
            low,
            stages.take(k),
            range,
            scope,
            st,
        ),
    decreases stages.len(),
{
    if k == stages.len() {
        assert(stages.take(k) =~= stages);
    } else {
        assert(stages.drop_last().take(k) =~= stages.take(k));
        lemma_stages_prefix_error(low, stages.drop_last(), k, range, scope, st);
    }
}

// ---------------------------------------------------------------------------
// Consumers.
// ---------------------------------------------------------------------------

/// How the surviving elements of a pipeline fold into the accumulator.
#[derive(Clone, Copy)]
pub enum RangeConsumer<'a> {
    /// `list.sum(pipeline)`: the elements must be integers.
    SumI64,
    /// `pipeline.len()`: one per surviving element.
    Len,
    /// `pipeline.reduce(init, (acc, elem) => body)`.
    Reduce { init: &'a Node, params: &'a Vec<ClosureParam>, body: &'a Node },
}

/// The initial accumulator: zero, or the value of the given expression.
pub open spec fn seed_value<L: SubLowering>(
    low: L,
    consumer: RangeConsumer<'_>,
    range: TokenRange,
    scope: Scope<'_>,
    at: SlotsView,
) -> Result<FragmentView, ErrorView> {
    match consumer {
        RangeConsumer::SumI64 | RangeConsumer::Len => Ok(
            FragmentView {
                ops: seq![sop(SimpleOp::ConstI64(0), range)],
                ty: Some(IrType::I64),
                slots: at,
            },
        ),
        RangeConsumer::Reduce { init, .. } => valued(
            low.lowered(*init, scope, at),
            "range-chain reduce: init expression produced no value"@,
            init.range,
        ),
    }
}

/// What the accumulator update adds.
pub open spec fn run_consumer<L: SubLowering>(
    low: L,
    consumer: RangeConsumer<'_>,
    acc: u32,
    acc_ty: IrType,
    range: TokenRange,
    scope: Scope<'_>,
    st: StageState,
) -> Result<StageState, ErrorView> {
    match consumer {
        RangeConsumer::SumI64 => if st.ty != IrType::I64 {
            Err(
                ErrorView::UnsupportedExpr {
                    kind: "list.sum(range(...).map(...)) requires Int-valued element; got "@
                        + st.ty.tag(),
                    range,
                },
            )
        } else {
            Ok(
                StageState {
                    ops: st.ops.push(let_get(st.idx, st.ty, range)).push(
                        let_get(acc, IrType::I64, range),
                    ).push(sop(SimpleOp::Add(IrType::I64), range)).push(
                        let_set(acc, IrType::I64, range),
                    ),
                    ..st
                },
            )
        },
        RangeConsumer::Len => Ok(
            StageState {
                ops: st.ops.push(let_get(acc, IrType::I64, range)).push(
                    sop(SimpleOp::ConstI64(1), range),
                ).push(sop(SimpleOp::Add(IrType::I64), range)).push(
                    let_set(acc, IrType::I64, range),
                ),
                ..st
            },
        ),
        RangeConsumer::Reduce { params, body, .. } => if params@.len() != 2 {
            Err(
                ErrorView::UnsupportedExpr {
                    kind: "range-chain reduce requires 2-arg closure (acc, elem); got "@
                        + decimal_chars(params@.len()),
                    range,
                },
            )
        } else {
            let acc_param = st.slots.lets;
            let elem_param = slot_at(st.slots.lets, 1);
            match valued(
                low.lowered(
                    *body,
                    scope.with(params@[0].name, acc_param, acc_ty).with(
                        params@[1].name,
                        elem_param,
                        st.ty,
                    ),
                    st.slots.after(2),
                ),
                "range-chain reduce: body produced no value"@,
                body.range,
            ) {
                Err(e) => Err(e),
                Ok(f) => if f.ty->0.slot_spec() != acc_ty.slot_spec() {
                    Err(
                        ErrorView::UnsupportedExpr {
                            kind: "range-chain reduce: body returned "@ + f.ty->0.tag()
                                + ", expected init type "@ + acc_ty.tag(),
                            range: body.range,
                        },
                    )
                } else {
                    Ok(
                        StageState {
                            ops: (st.ops.push(let_get(acc, acc_ty, range)).push(
                                let_set(acc_param, acc_ty, range),
                            ).push(let_get(st.idx, st.ty, range)).push(
                                let_set(elem_param, st.ty, range),
                            ) + f.ops).push(let_set(acc, acc_ty, range)),
                            slots: f.slots,
                            ..st
                        },
                    )
                },
            }
        },
    }
}

fn emit_consumer<L: SubLowering>(
    low: &L,
    consumer: RangeConsumer<'_>,
    acc: u32,
    acc_ty: IrType,
    range: TokenRange,
    scope: &Scope<'_>,
    st: Running,
    out: &mut Vec<TaggedOp>,
) -> (r: Result<Slots, LoweringError>)
    ensures
        match r {
            Ok(slots) => run_consumer(
                *low,
                consumer,
                acc,
                acc_ty,
                range,
                *scope,
                running_view(old(out)@, st),
            ) == Ok::<StageState, ErrorView>(
                running_view(final(out)@, Running { idx: st.idx, ty: st.ty, slots }),
            ),
            Err(e) => run_consumer(
                *low,
                consumer,
                acc,
                acc_ty,
                range,
                *scope,
                running_view(old(out)@, st),
            ) == Err::<StageState, ErrorView>(e@),
        },
{
    match consumer {
        RangeConsumer::SumI64 => match st.ty {
            IrType::I64 => {
                emit_get(out, st.idx, st.ty, range);
                emit_get(out, acc, IrType::I64, range);
                emit_simple(out, SimpleOp::Add(IrType::I64), range);
                emit_set(out, acc, IrType::I64, range);
                Ok(st.slots)
            },
            other => Err(
                LoweringError::UnsupportedExpr {
                    kind: join2(
                        "list.sum(range(...).map(...)) requires Int-valued element; got ",
                        other.name(),
                    ),
                    range,
                },
            ),
        },
        RangeConsumer::Len => {
            emit_get(out, acc, IrType::I64, range);
            emit_simple(out, SimpleOp::ConstI64(1), range);
            emit_simple(out, SimpleOp::Add(IrType::I64), range);
            emit_set(out, acc, IrType::I64, range);
            Ok(st.slots)
        },
        RangeConsumer::Reduce { params, body, .. } => {
            if params.len() != 2 {
                let count: String = decimal(params.len());
                return Err(
                    LoweringError::UnsupportedExpr {
                        kind: join2(
                            "range-chain reduce requires 2-arg closure (acc, elem); got ",
                            count.as_str(),
                        ),
                        range,
                    },
                );
            }
            let acc_param: u32 = st.slots.lets;
            let elem_param: u32 = slot(st.slots.lets, 1);
            emit_get(out, acc, acc_ty, range);
            emit_set(out, acc_param, acc_ty, range);
            emit_get(out, st.idx, st.ty, range);
            emit_set(out, elem_param, st.ty, range);
            let with_acc = bind(scope, &params[0].name, acc_param, acc_ty);
            let with_elem = bind(&with_acc, &params[1].name, elem_param, st.ty);
            let (f, produced) = match lower_valued(
                low,
                body,
                "range-chain reduce: body produced no value",
                &with_elem,
                &st.slots.reserve(2),
            ) {
                Err(e) => {
                    return Err(e);
                },
                Ok(v) => v,
            };
            if produced.wasm_slot() != acc_ty.wasm_slot() {
                let kind: String = join3(
                    "range-chain reduce: body returned ",
                    produced.name(),
                    ", expected init type ",
                );
                return Err(
                    LoweringError::UnsupportedExpr {
                        kind: kind.concat(acc_ty.name()),
                        range: body.range,
                    },
                );
            }
            let Fragment { ops, slots, .. } = f;
            emit_all(out, ops);
            emit_set(out, acc, acc_ty, range);
            Ok(slots)
        },
    }
}

// ---------------------------------------------------------------------------
// The pipeline loop.
// ---------------------------------------------------------------------------

/// The loop of a pipeline, given the emitted body of one iteration.
pub open spec fn pipeline_loop(
    start: u32,
    end: u32,
    iteration: Seq<TaggedOpView>,
    range: TokenRange,
) -> TaggedOpView {
    loop_op(
        exit_guard(start, end, IrType::I64, 1, range).push(block_op(iteration, range))
            + step_and_loop(start, range),
        range,
    )
}

/// The fragment of a consumed pipeline: bounds and accumulator into three
/// fresh slots, the loop, and the accumulator pushed as the result.
pub open spec fn pipeline_fragment<L: SubLowering>(
    low: L,
    args: Seq<CallArg>,
    stages: Seq<ChainStage<'_>>,
    consumer: RangeConsumer<'_>,
    range: TokenRange,
    scope: Scope<'_>,
    at: SlotsView,
) -> Result<FragmentView, ErrorView> {
    let start = at.lets;
    let end = slot_at(at.lets, 1);
    let acc = slot_at(at.lets, 2);
    match range_bound(low, args, true, start, range, scope, at.after(3)) {
        Err(e) => Err(e),
        Ok(lo) => match range_bound(low, args, false, end, range, scope, lo.slots) {
            Err(e) => Err(e),
            Ok(hi) => match seed_value(low, consumer, range, scope, hi.slots) {
                Err(e) => Err(e),
                Ok(seed) => {
                    let acc_ty = seed.ty->0;
                    let first = StageState {
                        ops: Seq::empty(),
                        idx: start,
                        ty: IrType::I64,
                        slots: seed.slots,
                    };
                    match run_stages(low, stages, range, scope, first) {
                        Err(e) => Err(e),
                        Ok(mid) => match run_consumer(
                            low,
                            consumer,
                            acc,
                            acc_ty,
                            range,
                            scope,
                            mid,
                        ) {
                            Err(e) => Err(e),
                            Ok(last) => Ok(
                                FragmentView {
                                    ops: (lo.ops + hi.ops + seed.ops).push(
                                        let_set(acc, acc_ty, range),
                                    ).push(pipeline_loop(start, end, last.ops, range)).push(
                                        let_get(acc, acc_ty, range),
                                    ),
                                    ty: Some(acc_ty),
                                    slots: last.slots,
                                },
                            ),
                        },
                    }
                },
            },
        },
    }
}

/// Emits the accumulator loop of a recognised pipeline.
pub fn emit_range_pipeline_loop<L: SubLowering>(
    chain: &RangeChain<'_>,
    consumer: RangeConsumer<'_>,
    range: TokenRange,
    scope: &Scope<'_>,
    at: &Slots,
    low: &L,
) -> (r: Result<Fragment, LoweringError>)
    requires
        chain.range_args@.len() >= 1,
        stages_unary(chain.stages@),
    ensures
        outcome(r) == pipeline_fragment(
            *low,
            chain.range_args@,
            chain.stages@,
            consumer,
            range,
            *scope,
            at@,
        ),
{
    let start_i: u32 = at.lets;
    let end_i: u32 = slot(at.lets, 1);
    let acc_i: u32 = slot(at.lets, 2);
    let lo = match emit_range_bound(
        chain.range_args,
        true,
        start_i,
        range,
        scope,
        &at.reserve(3),
        low,
    ) {
        Err(e) => {
            return Err(e);
        },
        Ok(f) => f,
    };
    let hi = match emit_range_bound(chain.range_args, false, end_i, range, scope, &lo.slots, low) {
        Err(e) => {
            return Err(e);
        },
        Ok(f) => f,
    };
    let (seed, acc_ty) = match consumer {
        RangeConsumer::SumI64 | RangeConsumer::Len => (
            one_op(SimpleOp::ConstI64(0), IrType::I64, range, &hi.slots),
            IrType::I64,
        ),
        RangeConsumer::Reduce { init, .. } => match lower_valued(
            low,
            init,
            "range-chain reduce: init expression produced no value",
            scope,
            &hi.slots,
        ) {
            Err(e) => {
                return Err(e);
            },
            Ok(v) => v,
        },
    };
    let mut out = lo.ops;
    emit_all(&mut out, hi.ops);
    let first = Running { idx: start_i, ty: IrType::I64, slots: seed.slots };
    emit_all(&mut out, seed.ops);
    emit_set(&mut out, acc_i, acc_ty, range);

    let mut iteration: Vec<TaggedOp> = Vec::new();
    let mid = match emit_stages(low, &chain.stages, range, scope, first, &mut iteration) {
        Err(e) => {
            return Err(e);
        },
        Ok(m) => m,
    };
    let slots = match emit_consumer(
        low,
        consumer,
        acc_i,
        acc_ty,
        range,
        scope,
        mid,
        &mut iteration,
    ) {
        Err(e) => {
            return Err(e);
        },
        Ok(sl) => sl,
    };
    let ghost iter_view = ops_view(iteration@);
    let mut body: Vec<TaggedOp> = Vec::new();
    emit_ge_brif(start_i, end_i, 1, range, &mut body);
    emit_block(iteration, range, &mut body);
    emit_incr_and_loop(start_i, range, &mut body);
    assert(ops_view(body@) =~= exit_guard(start_i, end_i, IrType::I64, 1, range).push(
        block_op(iter_view, range),
    ) + step_and_loop(start_i, range));
    emit_loop(body, range, &mut out);
    emit_get(&mut out, acc_i, acc_ty, range);
    Ok(Fragment { ops: out, ty: Some(acc_ty), slots })
}

// ---------------------------------------------------------------------------
// The doubly nested loop.
// ---------------------------------------------------------------------------

/// The row accumulator's initial value.
pub open spec fn row_seed<L: SubLowering>(
    low: L,
    fold: RowFold<'_>,
    range: TokenRange,
    scope: Scope<'_>,
    at: SlotsView,
) -> Result<FragmentView, ErrorView> {
    match fold {
        RowFold::Sum => Ok(
            FragmentView {
                ops: seq![sop(SimpleOp::ConstI64(0), range)],
                ty: Some(IrType::I64),
                slots: at,
            },
        ),
        RowFold::Reduce { init, .. } => int_top(low.lowered(*init, scope, at), init.range),
    }
}

/// The update of the row accumulator by one cell, held in `cell`.
pub open spec fn row_step<L: SubLowering>(
    low: L,
    fold: RowFold<'_>,
    row_acc: u32,
    cell: u32,
    range: TokenRange,
    scope: Scope<'_>,
    at: SlotsView,
) -> Result<FragmentView, ErrorView> {
    match fold {
        RowFold::Sum => Ok(
            FragmentView { ops: add_cell(row_acc, cell, range), ty: None, slots: at },
        ),
        RowFold::Reduce { acc_param, cell_param, body, .. } => match int_top(
            low.lowered(
                *body,
                scope.with(acc_param.name, at.lets, IrType::I64).with(
                    cell_param.name,
                    cell,
                    IrType::I64,
                ),
                at.after(1),
            ),
            body.range,
        ) {
            Err(e) => Err(e),
            Ok(f) => Ok(
                FragmentView {
                    ops: (seq![
                        let_get(row_acc, IrType::I64, range),
                        let_set(at.lets, IrType::I64, range),
                    ] + f.ops).push(let_set(row_acc, IrType::I64, range)),
                    ty: None,
                    slots: f.slots,
                },
            ),
        },
    }
}

fn emit_row_seed<L: SubLowering>(
    low: &L,
    fold: &RowFold<'_>,
    range: TokenRange,
    scope: &Scope<'_>,
    at: &Slots,
) -> (r: Result<Fragment, LoweringError>)
    ensures
        outcome(r) == row_seed(*low, *fold, range, *scope, at@),
{
    match fold {
        RowFold::Sum => Ok(one_op(SimpleOp::ConstI64(0), IrType::I64, range, at)),
        RowFold::Reduce { init, .. } => lower_int(low, init, init.range, scope, at),
    }
}

fn emit_row_step<L: SubLowering>(
    low: &L,
    fold: &RowFold<'_>,
    row_acc: u32,
    cell: u32,
    range: TokenRange,
    scope: &Scope<'_>,
    at: &Slots,
) -> (r: Result<Fragment, LoweringError>)
    ensures
        outcome(r) == row_step(*low, *fold, row_acc, cell, range, *scope, at@),
{
    let mut ops: Vec<TaggedOp> = Vec::new();
    match fold {
        RowFold::Sum => {
            emit_acc_add_cell(row_acc, cell, range, &mut ops);
            assert(ops_view(ops@) =~= add_cell(row_acc, cell, range));
            Ok(Fragment { ops, ty: None, slots: at.copy() })
        },
        RowFold::Reduce { acc_param, cell_param, body, .. } => {
            let with_acc = bind(scope, &acc_param.name, at.lets, IrType::I64);
            let with_cell = bind(&with_acc, &cell_param.name, cell, IrType::I64);
            let f = match lower_int(low, body, body.range, &with_cell, &at.reserve(1)) {
                Err(e) => {
                    return Err(e);
                },
                Ok(f) => f,
            };
            emit_get(&mut ops, row_acc, IrType::I64, range);
            emit_set(&mut ops, at.lets, IrType::I64, range);
            assert(ops_view(ops@) =~= seq![
                let_get(row_acc, IrType::I64, range),
                let_set(at.lets, IrType::I64, range),
            ]);
            let slots: Slots = f.slots;
            emit_all(&mut ops, f.ops);
            emit_set(&mut ops, row_acc, IrType::I64, range);
            Ok(Fragment { ops, ty: None, slots })
        },
    }
}

/// The two accumulators pushed in the order the operator takes them.
pub open spec fn combine_operands(
    acc_is_lhs: bool,
    outer_acc: u32,
    row_acc: u32,
    range: TokenRange,
) -> Seq<TaggedOpView> {
    if acc_is_lhs {
        seq![let_get(outer_acc, IrType::I64, range), let_get(row_acc, IrType::I64, range)]
    } else {
        seq![let_get(row_acc, IrType::I64, range), let_get(outer_acc, IrType::I64, range)]
    }
}

/// The inner loop: one row is generated cell by cell and folded into
/// `row_acc`, the third slot reserved at `at`. The fragment leaves no value.
pub open spec fn row_fragment<L: SubLowering>(
    low: L,
    shape: NestedRangeShape<'_>,
    fold: RowFold<'_>,
    range: TokenRange,
    scope: Scope<'_>,
    at: SlotsView,
) -> Result<FragmentView, ErrorView> {
    let start = at.lets;
    let end = slot_at(at.lets, 1);
    let row_acc = slot_at(at.lets, 2);
    match range_bound(low, shape.inner_range_args@, true, start, range, scope, at.after(3)) {
        Err(e) => Err(e),
        Ok(lo) => match range_bound(
            low,
            shape.inner_range_args@,
            false,
            end,
            range,
            scope,
            lo.slots,
        ) {
            Err(e) => Err(e),
            Ok(hi) => match row_seed(low, fold, range, scope, hi.slots) {
                Err(e) => Err(e),
                Ok(seed) => match int_top(
                    low.lowered(
                        *shape.cell_body,
                        scope.with(shape.inner_param.name, seed.slots.lets, IrType::I64),
                        seed.slots.after(1),
                    ),
                    shape.cell_body.range,
                ) {
                    Err(e) => Err(e),
                    Ok(cell) => match row_step(
                        low,
                        fold,
                        row_acc,
                        cell.slots.lets,
                        range,
                        scope,
                        cell.slots.after(1),
                    ) {
                        Err(e) => Err(e),
                        Ok(step) => Ok(
                            FragmentView {
                                ops: (lo.ops + hi.ops + seed.ops).push(
                                    let_set(row_acc, IrType::I64, range),
                                ).push(
                                    loop_op(
                                        (exit_guard(start, end, IrType::I64, 1, range).push(
                                            let_get(start, IrType::I64, range),
                                        ).push(let_set(seed.slots.lets, IrType::I64, range))
                                            + cell.ops).push(
                                            let_set(
                                                cell.slots.lets,
                                                IrType::I64,
                                                shape.cell_body.range,
                                            ),
                                        ) + step.ops + step_and_loop(start, range),
                                        range,
                                    ),
                                ),
                                ty: None,
                                slots: step.slots,
                            },
                        ),
                    },
                },
            },
        },
    }
}

fn emit_row<L: SubLowering>(
    shape: &NestedRangeShape<'_>,
    fold: &RowFold<'_>,
    range: TokenRange,
    scope: &Scope<'_>,
    at: &Slots,
    low: &L,
) -> (r: Result<Fragment, LoweringError>)
    requires
        shape.inner_range_args@.len() >= 1,
    ensures
        outcome(r) == row_fragment(*low, *shape, *fold, range, *scope, at@),
{
    let start_i: u32 = at.lets;
    let end_i: u32 = slot(at.lets, 1);
    let row_acc_i: u32 = slot(at.lets, 2);
    let lo = match emit_range_bound(
        shape.inner_range_args,
        true,
        start_i,
        range,
        scope,
        &at.reserve(3),
        low,
    ) {
        Err(e) => {
            return Err(e);
        },
        Ok(f) => f,
    };
    let hi = match emit_range_bound(
        shape.inner_range_args,
        false,
        end_i,
        range,
        scope,
        &lo.slots,
        low,
    ) {
        Err(e) => {
            return Err(e);
        },
        Ok(f) => f,
    };
    let seed = match emit_row_seed(low, fold, range, scope, &hi.slots) {
        Err(e) => {
            return Err(e);
        },
        Ok(f) => f,
    };
    let param_let: u32 = seed.slots.lets;
    let with_cell = bind(scope, &shape.inner_param.name, param_let, IrType::I64);
    let cell = match lower_int(
        low,
        shape.cell_body,
        shape.cell_body.range,
        &with_cell,
        &seed.slots.reserve(1),
    ) {
        Err(e) => {
            return Err(e);
        },
        Ok(f) => f,
    };
    let cell_let: u32 = cell.slots.lets;
    let step = match emit_row_step(
        low,
        fold,
        row_acc_i,
        cell_let,
        range,
        scope,
        &cell.slots.reserve(1),
    ) {
        Err(e) => {
            return Err(e);
        },
        Ok(f) => f,
    };
    let slots: Slots = step.slots;
    let mut body: Vec<TaggedOp> = Vec::new();
    emit_ge_brif(start_i, end_i, 1, range, &mut body);
    assert(ops_view(body@) =~= exit_guard(start_i, end_i, IrType::I64, 1, range));
    emit_get(&mut body, start_i, IrType::I64, range);
    emit_set(&mut body, param_let, IrType::I64, range);
    emit_all(&mut body, cell.ops);
    emit_set(&mut body, cell_let, IrType::I64, shape.cell_body.range);
    emit_all(&mut body, step.ops);
    emit_incr_and_loop(start_i, range, &mut body);

    let mut out = lo.ops;
    emit_all(&mut out, hi.ops);
    emit_all(&mut out, seed.ops);
    emit_set(&mut out, row_acc_i, IrType::I64, range);
    emit_loop(body, range, &mut out);
    Ok(Fragment { ops: out, ty: None, slots })
}

/// The fragment of a nested reduction: two nested loops, of which the inner
/// folds a row and the outer combines the rows.
pub open spec fn nested_fragment<L: SubLowering>(
    low: L,
    shape: NestedRangeShape<'_>,
    init: Node,
    combine: OuterCombine<'_>,
    range: TokenRange,
    scope: Scope<'_>,
    at: SlotsView,
) -> Result<FragmentView, ErrorView> {
    let start = at.lets;
    let end = slot_at(at.lets, 1);
    let acc = slot_at(at.lets, 2);
    match range_bound(low, shape.outer_range_args@, true, start, range, scope, at.after(3)) {
        Err(e) => Err(e),
        Ok(lo) => match range_bound(
            low,
            shape.outer_range_args@,
            false,
            end,
            range,
            scope,
            lo.slots,
        ) {
            Err(e) => Err(e),
            Ok(hi) => match int_top(low.lowered(init, scope, hi.slots), init.range) {
                Err(e) => Err(e),
                Ok(seed) => {
                    let inner_at = seed.slots.after(1);
                    let row_acc = slot_at(inner_at.lets, 2);
                    match row_fragment(
                        low,
                        shape,
                        combine.fold,
                        range,
                        scope.with(shape.outer_param.name, seed.slots.lets, IrType::I64),
                        inner_at,
                    ) {
                        Err(e) => Err(e),
                        Ok(row) => match combine_op(combine.op, range) {
                            Err(e) => Err(e),
                            Ok(op) => Ok(
                                FragmentView {
                                    ops: (lo.ops + hi.ops + seed.ops).push(
                                        let_set(acc, IrType::I64, range),
                                    ).push(
                                        loop_op(
                                            (exit_guard(start, end, IrType::I64, 1, range).push(
                                                let_get(start, IrType::I64, range),
                                            ).push(let_set(seed.slots.lets, IrType::I64, range))
                                                + row.ops + combine_operands(
                                                combine.acc_is_lhs,
                                                acc,
                                                row_acc,
                                                range,
                                            )).push(sop(op, range)).push(
                                                let_set(acc, IrType::I64, range),
                                            ) + step_and_loop(start, range),
                                            range,
                                        ),
                                    ).push(let_get(acc, IrType::I64, range)),
                                    ty: Some(IrType::I64),
                                    slots: row.slots,
                                },
                            ),
                        },
                    }
                },
            },
        },
    }
}

/// Emits the doubly nested accumulator loop of a recognised nested reduction.
pub fn emit_nested_range_map_reduce<L: SubLowering>(
    shape: &NestedRangeShape<'_>,
    init_node: &Node,
    combine: &OuterCombine<'_>,
    range: TokenRange,
    scope: &Scope<'_>,
    at: &Slots,
    low: &L,
) -> (r: Result<Fragment, LoweringError>)
    requires
        shape.outer_range_args@.len() >= 1,
        shape.inner_range_args@.len() >= 1,
    ensures
        outcome(r) == nested_fragment(*low, *shape, *init_node, *combine, range, *scope, at@),
{
    let start_i: u32 = at.lets;
    let end_i: u32 = slot(at.lets, 1);
    let acc_i: u32 = slot(at.lets, 2);
    let lo = match emit_range_bound(
        shape.outer_range_args,
        true,
        start_i,
        range,
        scope,
        &at.reserve(3),
        low,
    ) {
        Err(e) => {
            return Err(e);
        },
        Ok(f) => f,
    };
    let hi = match emit_range_bound(
        shape.outer_range_args,
        false,
        end_i,
        range,
        scope,
        &lo.slots,
        low,
    ) {
        Err(e) => {
            return Err(e);
        },
        Ok(f) => f,
    };
    let seed = match lower_int(low, init_node, init_node.range, scope, &hi.slots) {
        Err(e) => {
            return Err(e);
        },
        Ok(f) => f,
    };
    let param_let: u32 = seed.slots.lets;
    let inner_at: Slots = seed.slots.reserve(1);
    let row_acc_i: u32 = slot(inner_at.lets, 2);
    let with_row = bind(scope, &shape.outer_param.name, param_let, IrType::I64);
    let row = match emit_row(shape, &combine.fold, range, &with_row, &inner_at, low) {
        Err(e) => {
            return Err(e);
        },
        Ok(f) => f,
    };
    let op = match combine_operator_to_op(combine.op, range) {
        Err(e) => {
            return Err(e);
        },
        Ok(op) => op,
    };
    let slots: Slots = row.slots;
    let mut body: Vec<TaggedOp> = Vec::new();
    emit_ge_brif(start_i, end_i, 1, range, &mut body);
    assert(ops_view(body@) =~= exit_guard(start_i, end_i, IrType::I64, 1, range));
    emit_get(&mut body, start_i, IrType::I64, range);
    emit_set(&mut body, param_let, IrType::I64, range);
    emit_all(&mut body, row.ops);
    let ghost before = ops_view(body@);
    if combine.acc_is_lhs {
        emit_get(&mut body, acc_i, IrType::I64, range);
        emit_get(&mut body, row_acc_i, IrType::I64, range);
    } else {
        emit_get(&mut body, row_acc_i, IrType::I64, range);
        emit_get(&mut body, acc_i, IrType::I64, range);
    }
    assert(ops_view(body@) =~= before + combine_operands(
        combine.acc_is_lhs,
        acc_i,
        row_acc_i,
        range,
    ));
    emit_simple(&mut body, op, range);
    emit_set(&mut body, acc_i, IrType::I64, range);
    emit_incr_and_loop(start_i, range, &mut body);

    let mut out = lo.ops;
    emit_all(&mut out, hi.ops);
    emit_all(&mut out, seed.ops);
    emit_set(&mut out, acc_i, IrType::I64, range);
    emit_loop(body, range, &mut out);
    emit_get(&mut out, acc_i, IrType::I64, range);
    Ok(Fragment { ops: out, ty: Some(IrType::I64), slots })
}

} // verus!

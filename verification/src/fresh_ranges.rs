//! Loops over ranges have let slots of their own.

use vstd::prelude::*;

use crate::ast::{CallArg, Node, TokenKey, TokenRange};
use crate::chain::{combine_op, ChainStage, NestedRangeShape, OuterCombine, RowFold};
use crate::fragment::{
    int_top, let_get, let_set, slot_at, FragmentView, Scope, SlotsView, SubLowering,
};
use crate::fresh::{
    fresh, fresh_maybe, fresh_since, freshening, freshly, given, group_owned, one_typed, op_owned,
    owned, passes, sets, sets_beside,
};
use crate::ir::{sop, IrType, SimpleOp, TaggedOpView};
use crate::range_calls::{
    len_filter_range, list_sum_range, nested_range_map_reduce, range_chain_len, range_chain_reduce,
};
use crate::range_loop::{
    combine_operands, exit_guard, loop_op, nested_fragment, pipeline_fragment, pipeline_loop,
    range_bound, row_fragment, row_seed, row_step, run_consumer, run_stage, run_stages, seed_value,
    stage_value, step_and_loop, RangeConsumer, StageState,
};

verus! {

broadcast use group_owned;

/// The state of a pipeline sets only what was handed out since `from`.
pub open spec fn fresh_state(from: SlotsView, st: StageState) -> bool {
    &&& passes(from, st.slots)
    &&& owned(st.ops, from, st.slots)
    &&& st.slots.lets < u32::MAX ==> one_typed(st.ops)
}

/// The end of an iteration sets its counter.
pub proof fn lemma_step_owned(counter: u32, range: TokenRange, a: SlotsView, b: SlotsView)
    requires
        given(counter, a.lets, b.lets),
    ensures
        owned(step_and_loop(counter, range), a, b),
{
}

proof fn lemma_bound_is_fresh<L: SubLowering>(
    low: L,
    args: Seq<CallArg>,
    is_start: bool,
    target: u32,
    range: TokenRange,
    scope: Scope<'_>,
    from: SlotsView,
    at: SlotsView,
)
    requires
        freshening(low),
        passes(from, at),
        given(target, from.lets, at.lets),
    ensures
        freshly(from, at, range_bound(low, args, is_start, target, range, scope, at)),
        range_bound(low, args, is_start, target, range, scope, at) matches Ok(f) ==> sets_beside(
            f.ops,
            target,
            IrType::I64,
            at,
            f.slots,
        ),
{
}

proof fn lemma_stage_is_fresh<L: SubLowering>(
    low: L,
    stage: ChainStage<'_>,
    range: TokenRange,
    scope: Scope<'_>,
    from: SlotsView,
    st: StageState,
)
    requires
        freshening(low),
        fresh_state(from, st),
    ensures
        run_stage(low, stage, range, scope, st) matches Ok(next) ==> fresh_state(from, next)
            && passes(st.slots, next.slots),
{
    let value = stage_value(low, stage, scope, st);
    assert(fresh(st.slots.after(1), value));
}

proof fn lemma_stages_are_fresh<L: SubLowering>(
    low: L,
    stages: Seq<ChainStage<'_>>,
    range: TokenRange,
    scope: Scope<'_>,
    from: SlotsView,
    st: StageState,
)
    requires
        freshening(low),
        fresh_state(from, st),
    ensures
        run_stages(low, stages, range, scope, st) matches Ok(next) ==> fresh_state(from, next)
            && passes(st.slots, next.slots),
    decreases stages.len(),
{
    if stages.len() > 0 {
        lemma_stages_are_fresh(low, stages.drop_last(), range, scope, from, st);
        match run_stages(low, stages.drop_last(), range, scope, st) {
            Ok(mid) => {
                lemma_stage_is_fresh(low, stages.last(), range, scope, from, mid);
            },
            Err(_) => {},
        }
    }
}

proof fn lemma_consumer_is_fresh<L: SubLowering>(
    low: L,
    consumer: RangeConsumer<'_>,
    acc: u32,
    acc_ty: IrType,
    range: TokenRange,
    scope: Scope<'_>,
    at: SlotsView,
    from: SlotsView,
    st: StageState,
)
    requires
        freshening(low),
        fresh_state(from, st),
        passes(at, from),
        at.lets <= acc,
        from.lets < u32::MAX ==> acc < from.lets,
        consumer is Reduce || acc_ty == IrType::I64,
    ensures
        run_consumer(low, consumer, acc, acc_ty, range, scope, st) matches Ok(next) ==> {
            &&& passes(st.slots, next.slots)
            &&& owned(next.ops, at, next.slots)
            &&& next.slots.lets < u32::MAX ==> one_typed(next.ops) && sets_beside(
                next.ops,
                acc,
                acc_ty,
                from,
                next.slots,
            )
        },
{
}

proof fn lemma_pipeline_one_typed(
    at: SlotsView,
    lo: FragmentView,
    hi: FragmentView,
    seed: FragmentView,
    acc_ty: IrType,
    last: StageState,
    range: TokenRange,
)
    requires
        last.slots.lets < u32::MAX,
        passes(at.after(3), lo.slots),
        passes(lo.slots, hi.slots),
        passes(seed.slots, last.slots),
        fresh_since(hi.slots, hi.slots, seed),
        one_typed(lo.ops),
        one_typed(hi.ops),
        one_typed(last.ops),
        sets_beside(lo.ops, at.lets, IrType::I64, at.after(3), lo.slots),
        sets_beside(hi.ops, slot_at(at.lets, 1), IrType::I64, lo.slots, hi.slots),
        sets_beside(last.ops, slot_at(at.lets, 2), acc_ty, seed.slots, last.slots),
    ensures
        one_typed(
            (lo.ops + hi.ops + seed.ops).push(let_set(slot_at(at.lets, 2), acc_ty, range)).push(
                pipeline_loop(at.lets, slot_at(at.lets, 1), last.ops, range),
            ).push(let_get(slot_at(at.lets, 2), acc_ty, range)),
        ),
{
}

/// A pipeline over a range has slots of its own.
pub proof fn law_pipeline_is_fresh<L: SubLowering>(
    low: L,
    args: Seq<CallArg>,
    stages: Seq<ChainStage<'_>>,
    consumer: RangeConsumer<'_>,
    range: TokenRange,
    scope: Scope<'_>,
    at: SlotsView,
)
    requires
        freshening(low),
    ensures
        fresh(at, pipeline_fragment(low, args, stages, consumer, range, scope, at)),
{
    let start = at.lets;
    let end = slot_at(at.lets, 1);
    let acc = slot_at(at.lets, 2);
    lemma_bound_is_fresh(low, args, true, start, range, scope, at, at.after(3));
    match range_bound(low, args, true, start, range, scope, at.after(3)) {
        Err(_) => {},
        Ok(lo) => {
            lemma_bound_is_fresh(low, args, false, end, range, scope, at, lo.slots);
            match range_bound(low, args, false, end, range, scope, lo.slots) {
                Err(_) => {},
                Ok(hi) => match seed_value(low, consumer, range, scope, hi.slots) {
                    Err(_) => {},
                    Ok(seed) => {
                        assert(fresh_since(hi.slots, hi.slots, seed));
                        let acc_ty = seed.ty->0;
                        let first = StageState {
                            ops: Seq::empty(),
                            idx: start,
                            ty: IrType::I64,
                            slots: seed.slots,
                        };
                        lemma_stages_are_fresh(low, stages, range, scope, seed.slots, first);
                        match run_stages(low, stages, range, scope, first) {
                            Err(_) => {},
                            Ok(mid) => {
                                lemma_consumer_is_fresh(
                                    low,
                                    consumer,
                                    acc,
                                    acc_ty,
                                    range,
                                    scope,
                                    at,
                                    seed.slots,
                                    mid,
                                );
                                match run_consumer(low, consumer, acc, acc_ty, range, scope, mid) {
                                    Err(_) => {},
                                    Ok(last) => {
                                        lemma_step_owned(start, range, at, last.slots);
                                        assert(op_owned(
                                            pipeline_loop(start, end, last.ops, range),
                                            at,
                                            last.slots,
                                        ));
                                        if last.slots.lets < u32::MAX {
                                            lemma_pipeline_one_typed(
                                                at,
                                                lo,
                                                hi,
                                                seed,
                                                acc_ty,
                                                last,
                                                range,
                                            );
                                        }
                                    },
                                }
                            },
                        }
                    },
                },
            }
        },
    }
}

proof fn lemma_row_step_is_fresh<L: SubLowering>(
    low: L,
    fold: RowFold<'_>,
    row_acc: u32,
    cell: u32,
    range: TokenRange,
    scope: Scope<'_>,
    from: SlotsView,
    at: SlotsView,
)
    requires
        freshening(low),
        passes(from, at),
        given(row_acc, from.lets, at.lets),
    ensures
        freshly(from, at, row_step(low, fold, row_acc, cell, range, scope, at)),
        row_step(low, fold, row_acc, cell, range, scope, at) matches Ok(f) ==> sets_beside(
            f.ops,
            row_acc,
            IrType::I64,
            at,
            f.slots,
        ),
{
}

proof fn lemma_row_one_typed(
    at: SlotsView,
    lo: FragmentView,
    hi: FragmentView,
    seed: FragmentView,
    cell: FragmentView,
    step: FragmentView,
    inner: TokenRange,
    range: TokenRange,
)
    requires
        step.slots.lets < u32::MAX,
        passes(at.after(3), lo.slots),
        passes(lo.slots, hi.slots),
        fresh_since(hi.slots, hi.slots, seed),
        fresh_since(seed.slots.after(1), seed.slots.after(1), cell),
        passes(cell.slots.after(1), step.slots),
        one_typed(lo.ops),
        one_typed(hi.ops),
        one_typed(step.ops),
        sets_beside(lo.ops, at.lets, IrType::I64, at.after(3), lo.slots),
        sets_beside(hi.ops, slot_at(at.lets, 1), IrType::I64, lo.slots, hi.slots),
        sets_beside(
            step.ops,
            slot_at(at.lets, 2),
            IrType::I64,
            cell.slots.after(1),
            step.slots,
        ),
    ensures
        one_typed(
            (lo.ops + hi.ops + seed.ops).push(
                let_set(slot_at(at.lets, 2), IrType::I64, range),
            ).push(
                loop_op(
                    (exit_guard(at.lets, slot_at(at.lets, 1), IrType::I64, 1, range).push(
                        let_get(at.lets, IrType::I64, range),
                    ).push(let_set(seed.slots.lets, IrType::I64, range)) + cell.ops).push(
                        let_set(cell.slots.lets, IrType::I64, inner),
                    ) + step.ops + step_and_loop(at.lets, range),
                    range,
                ),
            ),
        ),
{
}

/// One row of a nested reduction has slots of its own.
pub proof fn law_row_is_fresh<L: SubLowering>(
    low: L,
    shape: NestedRangeShape<'_>,
    fold: RowFold<'_>,
    range: TokenRange,
    scope: Scope<'_>,
    at: SlotsView,
)
    requires
        freshening(low),
    ensures
        fresh(at, row_fragment(low, shape, fold, range, scope, at)),
{
    let start = at.lets;
    let end = slot_at(at.lets, 1);
    let row_acc = slot_at(at.lets, 2);
    let args = shape.inner_range_args@;
    lemma_bound_is_fresh(low, args, true, start, range, scope, at, at.after(3));
    match range_bound(low, args, true, start, range, scope, at.after(3)) {
        Err(_) => {},
        Ok(lo) => {
            lemma_bound_is_fresh(low, args, false, end, range, scope, at, lo.slots);
            match range_bound(low, args, false, end, range, scope, lo.slots) {
                Err(_) => {},
                Ok(hi) => {
                    assert(fresh(hi.slots, row_seed(low, fold, range, scope, hi.slots)));
                    match row_seed(low, fold, range, scope, hi.slots) {
                        Err(_) => {},
                        Ok(seed) => {
                            let value = int_top(
                                low.lowered(
                                    *shape.cell_body,
                                    scope.with(
                                        shape.inner_param.name,
                                        seed.slots.lets,
                                        IrType::I64,
                                    ),
                                    seed.slots.after(1),
                                ),
                                shape.cell_body.range,
                            );
                            assert(fresh(seed.slots.after(1), value));
                            match value {
                                Err(_) => {},
                                Ok(cell) => {
                                    let behind = cell.slots.after(1);
                                    lemma_row_step_is_fresh(
                                        low,
                                        fold,
                                        row_acc,
                                        cell.slots.lets,
                                        range,
                                        scope,
                                        at,
                                        behind,
                                    );
                                    match row_step(
                                        low,
                                        fold,
                                        row_acc,
                                        cell.slots.lets,
                                        range,
                                        scope,
                                        behind,
                                    ) {
                                        Err(_) => {},
                                        Ok(step) => {
                                            lemma_step_owned(start, range, at, step.slots);
                                            if step.slots.lets < u32::MAX {
                                                lemma_row_one_typed(
                                                    at,
                                                    lo,
                                                    hi,
                                                    seed,
                                                    cell,
                                                    step,
                                                    shape.cell_body.range,
                                                    range,
                                                );
                                            }
                                        },
                                    }
                                },
                            }
                        },
                    }
                },
            }
        },
    }
}

proof fn lemma_nested_one_typed(
    at: SlotsView,
    lo: FragmentView,
    hi: FragmentView,
    seed: FragmentView,
    row: FragmentView,
    operands: Seq<TaggedOpView>,
    op: SimpleOp,
    range: TokenRange,
)
    requires
        row.slots.lets < u32::MAX,
        passes(at.after(3), lo.slots),
        passes(lo.slots, hi.slots),
        fresh_since(hi.slots, hi.slots, seed),
        fresh_since(seed.slots.after(1), seed.slots.after(1), row),
        one_typed(lo.ops),
        one_typed(hi.ops),
        forall|n: u32, t: IrType| !(#[trigger] sets(operands, n, t)),
        !(op is LetSet),
        sets_beside(lo.ops, at.lets, IrType::I64, at.after(3), lo.slots),
        sets_beside(hi.ops, slot_at(at.lets, 1), IrType::I64, lo.slots, hi.slots),
    ensures
        one_typed(
            (lo.ops + hi.ops + seed.ops).push(
                let_set(slot_at(at.lets, 2), IrType::I64, range),
            ).push(
                loop_op(
                    (exit_guard(at.lets, slot_at(at.lets, 1), IrType::I64, 1, range).push(
                        let_get(at.lets, IrType::I64, range),
                    ).push(let_set(seed.slots.lets, IrType::I64, range)) + row.ops
                        + operands).push(sop(op, range)).push(
                        let_set(slot_at(at.lets, 2), IrType::I64, range),
                    ) + step_and_loop(at.lets, range),
                    range,
                ),
            ).push(let_get(slot_at(at.lets, 2), IrType::I64, range)),
        ),
{
}

/// A nested reduction has slots of its own.
pub proof fn law_nested_reduction_is_fresh<L: SubLowering>(
    low: L,
    shape: NestedRangeShape<'_>,
    init: Node,
    combine: OuterCombine<'_>,
    range: TokenRange,
    scope: Scope<'_>,
    at: SlotsView,
)
    requires
        freshening(low),
    ensures
        fresh(at, nested_fragment(low, shape, init, combine, range, scope, at)),
{
    let start = at.lets;
    let end = slot_at(at.lets, 1);
    let acc = slot_at(at.lets, 2);
    let args = shape.outer_range_args@;
    lemma_bound_is_fresh(low, args, true, start, range, scope, at, at.after(3));
    match range_bound(low, args, true, start, range, scope, at.after(3)) {
        Err(_) => {},
        Ok(lo) => {
            lemma_bound_is_fresh(low, args, false, end, range, scope, at, lo.slots);
            match range_bound(low, args, false, end, range, scope, lo.slots) {
                Err(_) => {},
                Ok(hi) => {
                    let first = int_top(low.lowered(init, scope, hi.slots), init.range);
                    assert(fresh(hi.slots, first));
                    match first {
                        Err(_) => {},
                        Ok(seed) => {
                            let inner = scope.with(
                                shape.outer_param.name,
                                seed.slots.lets,
                                IrType::I64,
                            );
                            let behind = seed.slots.after(1);
                            law_row_is_fresh(low, shape, combine.fold, range, inner, behind);
                            match (
                                row_fragment(low, shape, combine.fold, range, inner, behind),
                                combine_op(combine.op, range),
                            ) {
                                (Ok(row), Ok(op)) => {
                                    lemma_step_owned(start, range, at, row.slots);
                                    let operands = combine_operands(
                                        combine.acc_is_lhs,
                                        acc,
                                        slot_at(behind.lets, 2),
                                        range,
                                    );
                                    if row.slots.lets < u32::MAX {
                                        lemma_nested_one_typed(
                                            at,
                                            lo,
                                            hi,
                                            seed,
                                            row,
                                            operands,
                                            op,
                                            range,
                                        );
                                    }
                                },
                                _ => {},
                            }
                        },
                    }
                },
            }
        },
    }
}

/// Every fused call over a range has slots of its own.
pub proof fn law_range_calls_are_fresh<L: SubLowering>(
    low: L,
    path: Seq<TokenKey>,
    args: Seq<CallArg>,
    range: TokenRange,
    scope: Scope<'_>,
    at: SlotsView,
)
    requires
        freshening(low),
    ensures
        fresh_maybe(at, list_sum_range(low, path, args, range, scope, at)),
        fresh_maybe(at, range_chain_len(low, path, args, range, scope, at)),
        fresh_maybe(at, range_chain_reduce(low, path, args, range, scope, at)),
        fresh_maybe(at, nested_range_map_reduce(low, path, args, range, scope, at)),
        fresh_maybe(at, len_filter_range(low, path, args, range, scope, at)),
{
    assert forall|
        a: Seq<CallArg>,
        stages: Seq<ChainStage<'_>>,
        consumer: RangeConsumer<'_>,
    | fresh(
        at,
        #[trigger] pipeline_fragment(low, a, stages, consumer, range, scope, at),
    ) by {
        law_pipeline_is_fresh(low, a, stages, consumer, range, scope, at);
    }
    assert forall|shape: NestedRangeShape<'_>, init: Node, combine: OuterCombine<'_>| fresh(
        at,
        #[trigger] nested_fragment(low, shape, init, combine, range, scope, at),
    ) by {
        law_nested_reduction_is_fresh(low, shape, init, combine, range, scope, at);
    }
}

} // verus!

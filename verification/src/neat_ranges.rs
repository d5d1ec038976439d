//! Loops over ranges leave exactly the value that they compute.

use vstd::prelude::*;

use crate::ast::{CallArg, Node, TokenKey, TokenRange};
use crate::chain::{combine_op, ChainStage, NestedRangeShape, OuterCombine, RowFold};
use crate::fragment::{int_top, let_get, let_set, slot_at, Scope, SlotsView, SubLowering};
use crate::ir::{sop, IrType, OpView, TaggedOpView};
use crate::range_calls::{
    len_filter_range, list_sum_range, nested_range_map_reduce, range_chain_len, range_chain_reduce,
};
use crate::range_loop::{
    add_cell, block_op, combine_operands, end_value, exit_guard, loop_op, nested_fragment,
    pipeline_fragment, pipeline_loop, range_bound, row_fragment, row_seed, row_step, run_consumer,
    run_stage, run_stages, seed_value, stage_value, start_value, step_and_loop, RangeConsumer,
    StageState,
};
use crate::stack::{
    group_tally, neat, neat_lowering, neat_maybe, neat_outcome, op_tally, passing, settles, tally,
    Tally,
};

verus! {

broadcast use group_tally;

/// The body of an iteration leaves the stack as it was; it may jump to its
/// end.
pub open spec fn neat_iteration(ops: Seq<TaggedOpView>) -> bool {
    forall|labels: nat| labels >= 1 ==> settles(#[trigger] tally(ops, labels), 0, 0)
}

proof fn lemma_bound_is_neat<L: SubLowering>(
    low: L,
    args: Seq<CallArg>,
    is_start: bool,
    target: u32,
    range: TokenRange,
    scope: Scope<'_>,
    at: SlotsView,
)
    requires
        neat_lowering(low),
    ensures
        neat_outcome(range_bound(low, args, is_start, target, range, scope, at)),
{
    if is_start {
        assert(neat_outcome(start_value(low, args, range, scope, at)));
    } else {
        assert(neat_outcome(end_value(low, args, range, scope, at)));
    }
}

proof fn lemma_stage_is_neat<L: SubLowering>(
    low: L,
    stage: ChainStage<'_>,
    range: TokenRange,
    scope: Scope<'_>,
    st: StageState,
)
    requires
        neat_lowering(low),
        neat_iteration(st.ops),
    ensures
        run_stage(low, stage, range, scope, st) matches Ok(next) ==> neat_iteration(next.ops),
{
    assert(neat_outcome(stage_value(low, stage, scope, st)));
}

proof fn lemma_stages_are_neat<L: SubLowering>(
    low: L,
    stages: Seq<ChainStage<'_>>,
    range: TokenRange,
    scope: Scope<'_>,
    st: StageState,
)
    requires
        neat_lowering(low),
        neat_iteration(st.ops),
    ensures
        run_stages(low, stages, range, scope, st) matches Ok(next) ==> neat_iteration(next.ops),
    decreases stages.len(),
{
    if stages.len() > 0 {
        lemma_stages_are_neat(low, stages.drop_last(), range, scope, st);
        match run_stages(low, stages.drop_last(), range, scope, st) {
            Ok(mid) => {
                lemma_stage_is_neat(low, stages.last(), range, scope, mid);
            },
            Err(_) => {},
        }
    }
}

proof fn lemma_consumer_is_neat<L: SubLowering>(
    low: L,
    consumer: RangeConsumer<'_>,
    acc: u32,
    acc_ty: IrType,
    range: TokenRange,
    scope: Scope<'_>,
    st: StageState,
)
    requires
        neat_lowering(low),
        neat_iteration(st.ops),
    ensures
        run_consumer(low, consumer, acc, acc_ty, range, scope, st) matches Ok(next)
            ==> neat_iteration(next.ops),
{
}

/// A pipeline over a range leaves its accumulator and nothing else.
pub proof fn law_pipeline_is_neat<L: SubLowering>(
    low: L,
    args: Seq<CallArg>,
    stages: Seq<ChainStage<'_>>,
    consumer: RangeConsumer<'_>,
    range: TokenRange,
    scope: Scope<'_>,
    at: SlotsView,
)
    requires
        neat_lowering(low),
    ensures
        neat_outcome(pipeline_fragment(low, args, stages, consumer, range, scope, at)),
{
    let start = at.lets;
    let end = slot_at(at.lets, 1);
    let acc = slot_at(at.lets, 2);
    lemma_bound_is_neat(low, args, true, start, range, scope, at.after(3));
    match range_bound(low, args, true, start, range, scope, at.after(3)) {
        Err(_) => {},
        Ok(lo) => {
            lemma_bound_is_neat(low, args, false, end, range, scope, lo.slots);
            match range_bound(low, args, false, end, range, scope, lo.slots) {
                Err(_) => {},
                Ok(hi) => {
                    assert(neat_outcome(seed_value(low, consumer, range, scope, hi.slots)));
                    match seed_value(low, consumer, range, scope, hi.slots) {
                        Err(_) => {},
                        Ok(seed) => {
                            let first = StageState {
                                ops: Seq::empty(),
                                idx: start,
                                ty: IrType::I64,
                                slots: seed.slots,
                            };
                            lemma_stages_are_neat(low, stages, range, scope, first);
                            match run_stages(low, stages, range, scope, first) {
                                Err(_) => {},
                                Ok(mid) => {
                                    lemma_consumer_is_neat(
                                        low,
                                        consumer,
                                        acc,
                                        seed.ty->0,
                                        range,
                                        scope,
                                        mid,
                                    );
                                    match run_consumer(
                                        low,
                                        consumer,
                                        acc,
                                        seed.ty->0,
                                        range,
                                        scope,
                                        mid,
                                    ) {
                                        Err(_) => {},
                                        Ok(last) => {
                                            lemma_pipeline_loop(start, end, last.ops, range);
                                        },
                                    }
                                },
                            }
                        },
                    }
                },
            }
        },
    }
}

proof fn lemma_pipeline_loop(
    start: u32,
    end: u32,
    iteration: Seq<TaggedOpView>,
    range: TokenRange,
)
    requires
        neat_iteration(iteration),
    ensures
        forall|labels: nat|
            #[trigger] op_tally(pipeline_loop(start, end, iteration, range), labels)
                == passing(0, 0),
{
    assert forall|labels: nat|
        #[trigger] op_tally(pipeline_loop(start, end, iteration, range), labels)
            == passing(0, 0) by {
        let block = block_op(iteration, range);
        assert(settles(tally(iteration, labels + 3), 0, 0));
        lemma_block(iteration, range, labels + 2);
        let head = exit_guard(start, end, IrType::I64, 1, range);
        let body = head.push(block) + step_and_loop(start, range);
        lemma_exit_guard(start, end, IrType::I64, 1, range, labels + 2);
        lemma_step_and_loop(start, range, labels + 2);
        lemma_loop(body, range, labels);
    }
}

/// The guard of a loop leaves the stack as it was.
pub proof fn lemma_exit_guard(
    start: u32,
    end: u32,
    ty: IrType,
    depth: u32,
    range: TokenRange,
    labels: nat,
)
    requires
        depth < labels,
    ensures
        tally(exit_guard(start, end, ty, depth, range), labels) == (Tally::Through {
            needs: 0,
            change: 0,
        }),
{
    reveal_with_fuel(tally, 6);
    reveal_with_fuel(op_tally, 6);
}

/// The end of an iteration goes back to the start of the loop.
pub proof fn lemma_step_and_loop(counter: u32, range: TokenRange, labels: nat)
    requires
        labels > 0,
    ensures
        tally(step_and_loop(counter, range), labels) == (Tally::Gone { needs: 0 }),
{
    reveal_with_fuel(tally, 7);
    reveal_with_fuel(op_tally, 7);
}

/// A block whose body leaves the stack as it was does so too.
pub proof fn lemma_block(body: Seq<TaggedOpView>, range: TokenRange, labels: nat)
    requires
        settles(tally(body, labels + 1), 0, 0),
    ensures
        op_tally(block_op(body, range), labels) == passing(0, 0),
{
}

/// A loop whose body leaves the stack as it was does so too.
pub proof fn lemma_loop(body: Seq<TaggedOpView>, range: TokenRange, labels: nat)
    requires
        settles(tally(body, labels + 2), 0, 0),
    ensures
        op_tally(loop_op(body, range), labels) == passing(0, 0),
{
    let turn = TaggedOpView {
        op: OpView::Loop { result_ty: None, body },
        range,
    };
    let inner = seq![turn];
    assert(op_tally(turn, labels + 1) == passing(0, 0));
    assert(tally(inner, labels + 1) == passing(0, 0));
    assert(loop_op(body, range).op == OpView::Block {
        result_ty: None,
        body: inner,
    });
}

proof fn lemma_row_step_is_neat<L: SubLowering>(
    low: L,
    fold: RowFold<'_>,
    row_acc: u32,
    cell: u32,
    range: TokenRange,
    scope: Scope<'_>,
    at: SlotsView,
)
    requires
        neat_lowering(low),
    ensures
        row_step(low, fold, row_acc, cell, range, scope, at) matches Ok(f) ==> f.ty is None && neat(
            f,
        ),
{
    assert forall|labels: nat| #[trigger] tally(add_cell(row_acc, cell, range), labels) == passing(
        0,
        0,
    ) by {
        reveal_with_fuel(tally, 6);
        reveal_with_fuel(op_tally, 6);
    }
    let head = seq![
        let_get(row_acc, IrType::I64, range),
        let_set(at.lets, IrType::I64, range),
    ];
    assert forall|labels: nat| #[trigger] tally(head, labels) == passing(0, 0) by {
        reveal_with_fuel(tally, 4);
        reveal_with_fuel(op_tally, 4);
    }
}

/// One row of a nested reduction leaves nothing on the stack.
pub proof fn law_row_is_neat<L: SubLowering>(
    low: L,
    shape: NestedRangeShape<'_>,
    fold: RowFold<'_>,
    range: TokenRange,
    scope: Scope<'_>,
    at: SlotsView,
)
    requires
        neat_lowering(low),
    ensures
        row_fragment(low, shape, fold, range, scope, at) matches Ok(f) ==> f.ty is None && neat(f),
{
    let start = at.lets;
    let end = slot_at(at.lets, 1);
    let row_acc = slot_at(at.lets, 2);
    lemma_bound_is_neat(low, shape.inner_range_args@, true, start, range, scope, at.after(3));
    match range_bound(low, shape.inner_range_args@, true, start, range, scope, at.after(3)) {
        Err(_) => {},
        Ok(lo) => {
            lemma_bound_is_neat(low, shape.inner_range_args@, false, end, range, scope, lo.slots);
            match range_bound(low, shape.inner_range_args@, false, end, range, scope, lo.slots) {
                Err(_) => {},
                Ok(hi) => {
                    assert(neat_outcome(row_seed(low, fold, range, scope, hi.slots)));
                    match row_seed(low, fold, range, scope, hi.slots) {
                        Err(_) => {},
                        Ok(seed) => {
                            let value = int_top(
                                low.lowered(
                                    *shape.cell_body,
                                    scope.with(
                                        shape.inner_param.name,
                                        seed.slots.lets,
                                        IrType::I64,
                                    ),
                                    seed.slots.after(1),
                                ),
                                shape.cell_body.range,
                            );
                            assert(neat_outcome(value));
                            match value {
                                Err(_) => {},
                                Ok(cell) => {
                                    lemma_row_step_is_neat(
                                        low,
                                        fold,
                                        row_acc,
                                        cell.slots.lets,
                                        range,
                                        scope,
                                        cell.slots.after(1),
                                    );
                                    match row_step(
                                        low,
                                        fold,
                                        row_acc,
                                        cell.slots.lets,
                                        range,
                                        scope,
                                        cell.slots.after(1),
                                    ) {
                                        Err(_) => {},
                                        Ok(step) => {
                                            let body = (exit_guard(
                                                start,
                                                end,
                                                IrType::I64,
                                                1,
                                                range,
                                            ).push(
                                                let_get(
                                                    start,
                                                    IrType::I64,
                                                    range,
                                                ),
                                            ).push(
                                                let_set(
                                                    seed.slots.lets,
                                                    IrType::I64,
                                                    range,
                                                ),
                                            ) + cell.ops).push(
                                                let_set(
                                                    cell.slots.lets,
                                                    IrType::I64,
                                                    shape.cell_body.range,
                                                ),
                                            ) + step.ops + step_and_loop(start, range);
                                            assert forall|labels: nat|
                                                #[trigger] op_tally(loop_op(body, range), labels)
                                                    == passing(0, 0) by {
                                                lemma_exit_guard(
                                                    start,
                                                    end,
                                                    IrType::I64,
                                                    1,
                                                    range,
                                                    labels + 2,
                                                );
                                                lemma_step_and_loop(start, range, labels + 2);
                                                lemma_loop(body, range, labels);
                                            }
                                        },
                                    }
                                },
                            }
                        },
                    }
                },
            }
        },
    }
}

/// A nested reduction leaves its accumulator and nothing else.
pub proof fn law_nested_reduction_is_neat<L: SubLowering>(
    low: L,
    shape: NestedRangeShape<'_>,
    init: Node,
    combine: OuterCombine<'_>,
    range: TokenRange,
    scope: Scope<'_>,
    at: SlotsView,
)
    requires
        neat_lowering(low),
    ensures
        neat_outcome(nested_fragment(low, shape, init, combine, range, scope, at)),
{
    let start = at.lets;
    let end = slot_at(at.lets, 1);
    let acc = slot_at(at.lets, 2);
    lemma_bound_is_neat(low, shape.outer_range_args@, true, start, range, scope, at.after(3));
    match range_bound(low, shape.outer_range_args@, true, start, range, scope, at.after(3)) {
        Err(_) => {},
        Ok(lo) => {
            lemma_bound_is_neat(low, shape.outer_range_args@, false, end, range, scope, lo.slots);
            match range_bound(low, shape.outer_range_args@, false, end, range, scope, lo.slots) {
                Err(_) => {},
                Ok(hi) => {
                    let first = int_top(low.lowered(init, scope, hi.slots), init.range);
                    assert(neat_outcome(first));
                    match first {
                        Err(_) => {},
                        Ok(seed) => {
                            let inner_at = seed.slots.after(1);
                            let row_acc = slot_at(inner_at.lets, 2);
                            let inner = scope.with(
                                shape.outer_param.name,
                                seed.slots.lets,
                                IrType::I64,
                            );
                            law_row_is_neat(low, shape, combine.fold, range, inner, inner_at);
                            match row_fragment(low, shape, combine.fold, range, inner, inner_at) {
                                Err(_) => {},
                                Ok(row) => match combine_op(combine.op, range) {
                                    Err(_) => {},
                                    Ok(op) => {
                                        let operands = combine_operands(
                                            combine.acc_is_lhs,
                                            acc,
                                            row_acc,
                                            range,
                                        );
                                        let body = (exit_guard(
                                            start,
                                            end,
                                            IrType::I64,
                                            1,
                                            range,
                                        ).push(
                                            let_get(start, IrType::I64, range),
                                        ).push(
                                            let_set(
                                                seed.slots.lets,
                                                IrType::I64,
                                                range,
                                            ),
                                        ) + row.ops + operands).push(
                                            sop(op, range),
                                        ).push(
                                            let_set(acc, IrType::I64, range),
                                        ) + step_and_loop(start, range);
                                        assert forall|labels: nat|
                                            #[trigger] op_tally(loop_op(body, range), labels)
                                                == passing(0, 0) by {
                                            lemma_operands(
                                                combine.acc_is_lhs,
                                                acc,
                                                row_acc,
                                                range,
                                                labels + 2,
                                            );
                                            lemma_exit_guard(
                                                start,
                                                end,
                                                IrType::I64,
                                                1,
                                                range,
                                                labels + 2,
                                            );
                                            lemma_step_and_loop(start, range, labels + 2);
                                            lemma_loop(body, range, labels);
                                        }
                                    },
                                },
                            }
                        },
                    }
                },
            }
        },
    }
}

proof fn lemma_operands(
    acc_is_lhs: bool,
    outer_acc: u32,
    row_acc: u32,
    range: TokenRange,
    labels: nat,
)
    ensures
        tally(combine_operands(acc_is_lhs, outer_acc, row_acc, range), labels) == passing(0, 2),
{
    reveal_with_fuel(tally, 4);
    reveal_with_fuel(op_tally, 4);
}

/// Every fused call over a range leaves exactly its value.
pub proof fn law_range_calls_are_neat<L: SubLowering>(
    low: L,
    path: Seq<TokenKey>,
    args: Seq<CallArg>,
    range: TokenRange,
    scope: Scope<'_>,
    at: SlotsView,
)
    requires
        neat_lowering(low),
    ensures
        neat_maybe(list_sum_range(low, path, args, range, scope, at)),
        neat_maybe(range_chain_len(low, path, args, range, scope, at)),
        neat_maybe(range_chain_reduce(low, path, args, range, scope, at)),
        neat_maybe(nested_range_map_reduce(low, path, args, range, scope, at)),
        neat_maybe(len_filter_range(low, path, args, range, scope, at)),
{
    assert forall|
        a: Seq<CallArg>,
        stages: Seq<ChainStage<'_>>,
        consumer: RangeConsumer<'_>,
    | neat_outcome(
        #[trigger] pipeline_fragment(low, a, stages, consumer, range, scope, at),
    ) by {
        law_pipeline_is_neat(low, a, stages, consumer, range, scope, at);
    }
    assert forall|shape: NestedRangeShape<'_>, init: Node, combine: OuterCombine<'_>| neat_outcome(
        #[trigger] nested_fragment(low, shape, init, combine, range, scope, at),
    ) by {
        law_nested_reduction_is_neat(low, shape, init, combine, range, scope, at);
    }
}

} // verus!

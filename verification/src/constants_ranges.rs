//! Loops over ranges refer only to what is interned.

use vstd::prelude::*;

use crate::ast::{CallArg, Node, TokenKey, TokenRange};
use crate::chain::{ChainStage, NestedRangeShape, OuterCombine, RowFold};
use crate::constants::{group_known, grows, keeping, kept, kept_maybe, known, op_known, well_kept};
use crate::fragment::{int_top, slot_at, Scope, SlotsView, SubLowering};
use crate::ir::IrType;
use crate::range_calls::{
    len_filter_range, list_sum_range, nested_range_map_reduce, range_chain_len, range_chain_reduce,
};
use crate::range_loop::{
    nested_fragment, pipeline_fragment, pipeline_loop, range_bound, row_fragment, row_seed,
    row_step, run_consumer, run_stage, run_stages, seed_value, stage_value, RangeConsumer,
    StageState,
};

verus! {

broadcast use group_known;

/// The state of a pipeline refers to what is interned.
pub open spec fn kept_state(at: SlotsView, st: StageState) -> bool {
    grows(at, st.slots) && known(st.ops, st.slots)
}

proof fn lemma_bound_keeps<L: SubLowering>(
    low: L,
    args: Seq<CallArg>,
    is_start: bool,
    target: u32,
    range: TokenRange,
    scope: Scope<'_>,
    at: SlotsView,
)
    requires
        keeping(low),
    ensures
        kept(at, range_bound(low, args, is_start, target, range, scope, at)),
{
}

proof fn lemma_stage_keeps<L: SubLowering>(
    low: L,
    stage: ChainStage<'_>,
    range: TokenRange,
    scope: Scope<'_>,
    at: SlotsView,
    st: StageState,
)
    requires
        keeping(low),
        kept_state(at, st),
    ensures
        run_stage(low, stage, range, scope, st) matches Ok(next) ==> kept_state(at, next),
{
    let value = stage_value(low, stage, scope, st);
    assert(value matches Ok(f) ==> grows(st.slots, f.slots) && known(f.ops, f.slots));
}

proof fn lemma_stages_keep<L: SubLowering>(
    low: L,
    stages: Seq<ChainStage<'_>>,
    range: TokenRange,
    scope: Scope<'_>,
    at: SlotsView,
    st: StageState,
)
    requires
        keeping(low),
        kept_state(at, st),
    ensures
        run_stages(low, stages, range, scope, st) matches Ok(next) ==> kept_state(at, next),
    decreases stages.len(),
{
    if stages.len() > 0 {
        lemma_stages_keep(low, stages.drop_last(), range, scope, at, st);
        match run_stages(low, stages.drop_last(), range, scope, st) {
            Ok(mid) => {
                lemma_stage_keeps(low, stages.last(), range, scope, at, mid);
            },
            Err(_) => {},
        }
    }
}

proof fn lemma_consumer_keeps<L: SubLowering>(
    low: L,
    consumer: RangeConsumer<'_>,
    acc: u32,
    acc_ty: IrType,
    range: TokenRange,
    scope: Scope<'_>,
    at: SlotsView,
    st: StageState,
)
    requires
        keeping(low),
        kept_state(at, st),
    ensures
        run_consumer(low, consumer, acc, acc_ty, range, scope, st) matches Ok(next)
            ==> kept_state(at, next),
{
}

/// A pipeline over a range refers to what is interned.
pub proof fn law_pipeline_keeps<L: SubLowering>(
    low: L,
    args: Seq<CallArg>,
    stages: Seq<ChainStage<'_>>,
    consumer: RangeConsumer<'_>,
    range: TokenRange,
    scope: Scope<'_>,
    at: SlotsView,
)
    requires
        keeping(low),
    ensures
        kept(at, pipeline_fragment(low, args, stages, consumer, range, scope, at)),
{
    let start = at.lets;
    let end = slot_at(at.lets, 1);
    let acc = slot_at(at.lets, 2);
    lemma_bound_keeps(low, args, true, start, range, scope, at.after(3));
    match range_bound(low, args, true, start, range, scope, at.after(3)) {
        Err(_) => {},
        Ok(lo) => {
            lemma_bound_keeps(low, args, false, end, range, scope, lo.slots);
            match range_bound(low, args, false, end, range, scope, lo.slots) {
                Err(_) => {},
                Ok(hi) => match seed_value(low, consumer, range, scope, hi.slots) {
                    Err(_) => {},
                    Ok(seed) => {
                        assert(well_kept(hi.slots, seed));
                        let first = StageState {
                            ops: Seq::empty(),
                            idx: start,
                            ty: IrType::I64,
                            slots: seed.slots,
                        };
                        lemma_stages_keep(low, stages, range, scope, seed.slots, first);
                        match run_stages(low, stages, range, scope, first) {
                            Err(_) => {},
                            Ok(mid) => {
                                lemma_consumer_keeps(
                                    low,
                                    consumer,
                                    acc,
                                    seed.ty->0,
                                    range,
                                    scope,
                                    seed.slots,
                                    mid,
                                );
                                match run_consumer(
                                    low,
                                    consumer,
                                    acc,
                                    seed.ty->0,
                                    range,
                                    scope,
                                    mid,
                                ) {
                                    Err(_) => {},
                                    Ok(last) => {
                                        assert(op_known(
                                            pipeline_loop(start, end, last.ops, range),
                                            last.slots,
                                        ));
                                    },
                                }
                            },
                        }
                    },
                },
            }
        },
    }
}

proof fn lemma_row_step_keeps<L: SubLowering>(
    low: L,
    fold: RowFold<'_>,
    row_acc: u32,
    cell: u32,
    range: TokenRange,
    scope: Scope<'_>,
    at: SlotsView,
)
    requires
        keeping(low),
    ensures
        kept(at, row_step(low, fold, row_acc, cell, range, scope, at)),
{
}

/// One row of a nested reduction refers to what is interned.
pub proof fn law_row_keeps<L: SubLowering>(
    low: L,
    shape: NestedRangeShape<'_>,
    fold: RowFold<'_>,
    range: TokenRange,
    scope: Scope<'_>,
    at: SlotsView,
)
    requires
        keeping(low),
    ensures
        kept(at, row_fragment(low, shape, fold, range, scope, at)),
{
    let start = at.lets;
    let end = slot_at(at.lets, 1);
    let row_acc = slot_at(at.lets, 2);
    lemma_bound_keeps(low, shape.inner_range_args@, true, start, range, scope, at.after(3));
    match range_bound(low, shape.inner_range_args@, true, start, range, scope, at.after(3)) {
        Err(_) => {},
        Ok(lo) => {
            lemma_bound_keeps(low, shape.inner_range_args@, false, end, range, scope, lo.slots);
            match range_bound(low, shape.inner_range_args@, false, end, range, scope, lo.slots) {
                Err(_) => {},
                Ok(hi) => {
                    assert(kept(hi.slots, row_seed(low, fold, range, scope, hi.slots)));
                    match row_seed(low, fold, range, scope, hi.slots) {
                        Err(_) => {},
                        Ok(seed) => {
                            let value = int_top(
                                low.lowered(
                                    *shape.cell_body,
                                    scope.with(
                                        shape.inner_param.name,
                                        seed.slots.lets,
                                        IrType::I64,
                                    ),
                                    seed.slots.after(1),
                                ),
                                shape.cell_body.range,
                            );
                            assert(kept(seed.slots.after(1), value));
                            match value {
                                Err(_) => {},
                                Ok(cell) => {
                                    lemma_row_step_keeps(
                                        low,
                                        fold,
                                        row_acc,
                                        cell.slots.lets,
                                        range,
                                        scope,
                                        cell.slots.after(1),
                                    );
                                },
                            }
                        },
                    }
                },
            }
        },
    }
}

/// A nested reduction refers to what is interned.
pub proof fn law_nested_reduction_keeps<L: SubLowering>(
    low: L,
    shape: NestedRangeShape<'_>,
    init: Node,
    combine: OuterCombine<'_>,
    range: TokenRange,
    scope: Scope<'_>,
    at: SlotsView,
)
    requires
        keeping(low),
    ensures
        kept(at, nested_fragment(low, shape, init, combine, range, scope, at)),
{
    let start = at.lets;
    let end = slot_at(at.lets, 1);
    lemma_bound_keeps(low, shape.outer_range_args@, true, start, range, scope, at.after(3));
    match range_bound(low, shape.outer_range_args@, true, start, range, scope, at.after(3)) {
        Err(_) => {},
        Ok(lo) => {
            lemma_bound_keeps(low, shape.outer_range_args@, false, end, range, scope, lo.slots);
            match range_bound(low, shape.outer_range_args@, false, end, range, scope, lo.slots) {
                Err(_) => {},
                Ok(hi) => {
                    let first = int_top(low.lowered(init, scope, hi.slots), init.range);
                    assert(kept(hi.slots, first));
                    match first {
                        Err(_) => {},
                        Ok(seed) => {
                            let inner = scope.with(
                                shape.outer_param.name,
                                seed.slots.lets,
                                IrType::I64,
                            );
                            law_row_keeps(
                                low,
                                shape,
                                combine.fold,
                                range,
                                inner,
                                seed.slots.after(1),
                            );
                        },
                    }
                },
            }
        },
    }
}

/// Every fused call over a range refers to what is interned.
pub proof fn law_range_calls_keep<L: SubLowering>(
    low: L,
    path: Seq<TokenKey>,
    args: Seq<CallArg>,
    range: TokenRange,
    scope: Scope<'_>,
    at: SlotsView,
)
    requires
        keeping(low),
    ensures
        kept_maybe(at, list_sum_range(low, path, args, range, scope, at)),
        kept_maybe(at, range_chain_len(low, path, args, range, scope, at)),
        kept_maybe(at, range_chain_reduce(low, path, args, range, scope, at)),
        kept_maybe(at, nested_range_map_reduce(low, path, args, range, scope, at)),
        kept_maybe(at, len_filter_range(low, path, args, range, scope, at)),
{
    assert forall|
        a: Seq<CallArg>,
        stages: Seq<ChainStage<'_>>,
        consumer: RangeConsumer<'_>,
    | kept(
        at,
        #[trigger] pipeline_fragment(low, a, stages, consumer, range, scope, at),
    ) by {
        law_pipeline_keeps(low, a, stages, consumer, range, scope, at);
    }
    assert forall|shape: NestedRangeShape<'_>, init: Node, combine: OuterCombine<'_>| kept(
        at,
        #[trigger] nested_fragment(low, shape, init, combine, range, scope, at),
    ) by {
        law_nested_reduction_keeps(low, shape, init, combine, range, scope, at);
    }
}

} // verus!

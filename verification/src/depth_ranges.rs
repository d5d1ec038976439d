//! Loops over ranges ask for nothing but their parts.

use vstd::prelude::*;

use crate::ast::{CallArg, Expr, Node, TokenKey, TokenRange};
use crate::chain::{sum_call, ChainStage, NestedRangeShape, OuterCombine, RowFold};
use crate::depth::{
    agree, alike, args_nest, bounds_nest, consumer_nests, fold_nests, keys_nest,
    lemma_bare_range_nests, lemma_call_nests, lemma_chain_nests, lemma_closure_nests,
    lemma_nested_map_nests, lemma_outer_combine_nests, nests, shape_nests, stages_nest,
};
use crate::fragment::{Scope, SlotsView, SubLowering};
use crate::ir::IrType;
use crate::range_calls::{
    fold_closure, len_call, len_filter_range, list_sum_range, method_receiver,
    nested_range_map_reduce, range_chain_len, range_chain_reduce,
};
use crate::range_loop::{
    end_value, nested_fragment, pipeline_fragment, range_bound, row_fragment, row_seed, row_step,
    run_consumer, run_stage, run_stages, seed_value, stage_value, start_value, RangeConsumer,
    StageState,
};

verus! {

/// [`start_value`] asks for nothing but its parts.
pub broadcast proof fn lemma_start_value_agrees<L: SubLowering, H: SubLowering>(
    l: L,
    h: H,
    n: nat,
    args: Seq<CallArg>,
    range: TokenRange,
    scope: Scope<'_>,
    at: SlotsView,
)
    requires
        #[trigger] agree(l, h, n),
        alike(l, h),
        bounds_nest(n, args),
    ensures
        #[trigger] start_value(l, args, range, scope, at) == #[trigger] start_value(
            h,
            args,
            range,
            scope,
            at,
        ),
{
}

/// [`end_value`] asks for nothing but its parts.
pub broadcast proof fn lemma_end_value_agrees<L: SubLowering, H: SubLowering>(
    l: L,
    h: H,
    n: nat,
    args: Seq<CallArg>,
    range: TokenRange,
    scope: Scope<'_>,
    at: SlotsView,
)
    requires
        #[trigger] agree(l, h, n),
        alike(l, h),
        bounds_nest(n, args),
    ensures
        #[trigger] end_value(l, args, range, scope, at) == #[trigger] end_value(
            h,
            args,
            range,
            scope,
            at,
        ),
{
}

/// [`range_bound`] asks for nothing but its parts.
pub broadcast proof fn lemma_range_bound_agrees<L: SubLowering, H: SubLowering>(
    l: L,
    h: H,
    n: nat,
    args: Seq<CallArg>,
    is_start: bool,
    target: u32,
    range: TokenRange,
    scope: Scope<'_>,
    at: SlotsView,
)
    requires
        #[trigger] agree(l, h, n),
        alike(l, h),
        bounds_nest(n, args),
    ensures
        #[trigger] range_bound(
            l,
            args,
            is_start,
            target,
            range,
            scope,
            at,
        ) == #[trigger] range_bound(
            h,
            args,
            is_start,
            target,
            range,
            scope,
            at,
        ),
{
    broadcast use {lemma_start_value_agrees, lemma_end_value_agrees};
}

/// [`stage_value`] asks for nothing but its parts.
pub broadcast proof fn lemma_stage_value_agrees<L: SubLowering, H: SubLowering>(
    l: L,
    h: H,
    n: nat,
    stage: ChainStage<'_>,
    scope: Scope<'_>,
    st: StageState,
)
    requires
        #[trigger] agree(l, h, n),
        alike(l, h),
        nests(n, *stage.closure_body.expr),
    ensures
        #[trigger] stage_value(l, stage, scope, st) == #[trigger] stage_value(h, stage, scope, st),
{
}

/// [`run_stage`] asks for nothing but its parts.
pub broadcast proof fn lemma_run_stage_agrees<L: SubLowering, H: SubLowering>(
    l: L,
    h: H,
    n: nat,
    stage: ChainStage<'_>,
    range: TokenRange,
    scope: Scope<'_>,
    st: StageState,
)
    requires
        #[trigger] agree(l, h, n),
        alike(l, h),
        nests(n, *stage.closure_body.expr),
    ensures
        #[trigger] run_stage(l, stage, range, scope, st) == #[trigger] run_stage(
            h,
            stage,
            range,
            scope,
            st,
        ),
{
    broadcast use lemma_stage_value_agrees;
}

/// [`run_stages`] asks for nothing but its parts.
pub broadcast proof fn lemma_run_stages_agrees<L: SubLowering, H: SubLowering>(
    l: L,
    h: H,
    n: nat,
    stages: Seq<ChainStage<'_>>,
    range: TokenRange,
    scope: Scope<'_>,
    st: StageState,
)
    requires
        #[trigger] agree(l, h, n),
        alike(l, h),
        stages_nest(n, stages),
    ensures
        #[trigger] run_stages(l, stages, range, scope, st) == #[trigger] run_stages(
            h,
            stages,
            range,
            scope,
            st,
        ),
    decreases stages.len(),
{
    broadcast use lemma_run_stage_agrees;

    if stages.len() > 0 {
        assert(stages_nest(n, stages.drop_last())) by {
            assert forall|i: int| 0 <= i < stages.drop_last().len() implies nests(
                n,
                *(#[trigger] stages.drop_last()[i]).closure_body.expr,
            ) by {
                assert(stages[i] == stages.drop_last()[i]);
            }
        }
        assert(stages.last() == stages[stages.len() - 1]);
        lemma_run_stages_agrees(l, h, n, stages.drop_last(), range, scope, st);
    }
}

/// [`seed_value`] asks for nothing but its parts.
pub broadcast proof fn lemma_seed_value_agrees<L: SubLowering, H: SubLowering>(
    l: L,
    h: H,
    n: nat,
    consumer: RangeConsumer<'_>,
    range: TokenRange,
    scope: Scope<'_>,
    at: SlotsView,
)
    requires
        #[trigger] agree(l, h, n),
        alike(l, h),
        consumer_nests(n, consumer),
    ensures
        #[trigger] seed_value(l, consumer, range, scope, at) == #[trigger] seed_value(
            h,
            consumer,
            range,
            scope,
            at,
        ),
{
}

/// [`run_consumer`] asks for nothing but its parts.
pub broadcast proof fn lemma_run_consumer_agrees<L: SubLowering, H: SubLowering>(
    l: L,
    h: H,
    n: nat,
    consumer: RangeConsumer<'_>,
    acc: u32,
    acc_ty: IrType,
    range: TokenRange,
    scope: Scope<'_>,
    st: StageState,
)
    requires
        #[trigger] agree(l, h, n),
        alike(l, h),
        consumer_nests(n, consumer),
    ensures
        #[trigger] run_consumer(
            l,
            consumer,
            acc,
            acc_ty,
            range,
            scope,
            st,
        ) == #[trigger] run_consumer(
            h,
            consumer,
            acc,
            acc_ty,
            range,
            scope,
            st,
        ),
{
}

/// [`pipeline_fragment`] asks for nothing but its parts.
pub broadcast proof fn lemma_pipeline_fragment_agrees<L: SubLowering, H: SubLowering>(
    l: L,
    h: H,
    n: nat,
    args: Seq<CallArg>,
    stages: Seq<ChainStage<'_>>,
    consumer: RangeConsumer<'_>,
    range: TokenRange,
    scope: Scope<'_>,
    at: SlotsView,
)
    requires
        #[trigger] agree(l, h, n),
        alike(l, h),
        bounds_nest(n, args),
        stages_nest(n, stages),
        consumer_nests(n, consumer),
    ensures
        #[trigger] pipeline_fragment(
            l,
            args,
            stages,
            consumer,
            range,
            scope,
            at,
        ) == #[trigger] pipeline_fragment(
            h,
            args,
            stages,
            consumer,
            range,
            scope,
            at,
        ),
{
    broadcast use {
        lemma_range_bound_agrees,
        lemma_run_consumer_agrees,
        lemma_run_stages_agrees,
        lemma_seed_value_agrees,
    };
}

/// [`row_seed`] asks for nothing but its parts.
pub broadcast proof fn lemma_row_seed_agrees<L: SubLowering, H: SubLowering>(
    l: L,
    h: H,
    n: nat,
    fold: RowFold<'_>,
    range: TokenRange,
    scope: Scope<'_>,
    at: SlotsView,
)
    requires
        #[trigger] agree(l, h, n),
        alike(l, h),
        fold_nests(n, fold),
    ensures
        #[trigger] row_seed(l, fold, range, scope, at) == #[trigger] row_seed(
            h,
            fold,
            range,
            scope,
            at,
        ),
{
}

/// [`row_step`] asks for nothing but its parts.
pub broadcast proof fn lemma_row_step_agrees<L: SubLowering, H: SubLowering>(
    l: L,
    h: H,
    n: nat,
    fold: RowFold<'_>,
    row_acc: u32,
    cell: u32,
    range: TokenRange,
    scope: Scope<'_>,
    at: SlotsView,
)
    requires
        #[trigger] agree(l, h, n),
        alike(l, h),
        fold_nests(n, fold),
    ensures
        #[trigger] row_step(
            l,
            fold,
            row_acc,
            cell,
            range,
            scope,
            at,
        ) == #[trigger] row_step(
            h,
            fold,
            row_acc,
            cell,
            range,
            scope,
            at,
        ),
{
}

/// [`row_fragment`] asks for nothing but its parts.
pub broadcast proof fn lemma_row_fragment_agrees<L: SubLowering, H: SubLowering>(
    l: L,
    h: H,
    n: nat,
    shape: NestedRangeShape<'_>,
    fold: RowFold<'_>,
    range: TokenRange,
    scope: Scope<'_>,
    at: SlotsView,
)
    requires
        #[trigger] agree(l, h, n),
        alike(l, h),
        shape_nests(n, shape),
        fold_nests(n, fold),
    ensures
        #[trigger] row_fragment(l, shape, fold, range, scope, at) == #[trigger] row_fragment(
            h,
            shape,
            fold,
            range,
            scope,
            at,
        ),
{
    broadcast use {lemma_range_bound_agrees, lemma_row_seed_agrees, lemma_row_step_agrees};
}

/// [`nested_fragment`] asks for nothing but its parts.
pub broadcast proof fn lemma_nested_fragment_agrees<L: SubLowering, H: SubLowering>(
    l: L,
    h: H,
    n: nat,
    shape: NestedRangeShape<'_>,
    init: Node,
    combine: OuterCombine<'_>,
    range: TokenRange,
    scope: Scope<'_>,
    at: SlotsView,
)
    requires
        #[trigger] agree(l, h, n),
        alike(l, h),
        shape_nests(n, shape),
        nests(n, *init.expr),
        fold_nests(n, combine.fold),
    ensures
        #[trigger] nested_fragment(
            l,
            shape,
            init,
            combine,
            range,
            scope,
            at,
        ) == #[trigger] nested_fragment(
            h,
            shape,
            init,
            combine,
            range,
            scope,
            at,
        ),
{
    broadcast use {lemma_range_bound_agrees, lemma_row_fragment_agrees};
}

/// [`list_sum_range`] asks for nothing but its parts.
pub broadcast proof fn lemma_list_sum_range_agrees<L: SubLowering, H: SubLowering>(
    l: L,
    h: H,
    n: nat,
    path: Seq<TokenKey>,
    args: Seq<CallArg>,
    range: TokenRange,
    scope: Scope<'_>,
    at: SlotsView,
)
    requires
        #[trigger] agree(l, h, n),
        alike(l, h),
        keys_nest(n, path),
        args_nest(n, args),
    ensures
        #[trigger] list_sum_range(l, path, args, range, scope, at) == #[trigger] list_sum_range(
            h,
            path,
            args,
            range,
            scope,
            at,
        ),
{
    broadcast use lemma_pipeline_fragment_agrees;

    if sum_call(path, args) {
        assert(nests(n, *args[0].value.expr));
        lemma_chain_nests(n, &*args[0].value.expr);
    }
}

/// [`range_chain_len`] asks for nothing but its parts.
pub broadcast proof fn lemma_range_chain_len_agrees<L: SubLowering, H: SubLowering>(
    l: L,
    h: H,
    n: nat,
    path: Seq<TokenKey>,
    args: Seq<CallArg>,
    range: TokenRange,
    scope: Scope<'_>,
    at: SlotsView,
)
    requires
        #[trigger] agree(l, h, n),
        alike(l, h),
        keys_nest(n, path),
        args_nest(n, args),
    ensures
        #[trigger] range_chain_len(l, path, args, range, scope, at) == #[trigger] range_chain_len(
            h,
            path,
            args,
            range,
            scope,
            at,
        ),
{
    broadcast use lemma_pipeline_fragment_agrees;

    if let Some(receiver) = method_receiver(path, "len"@) {
        assert(path[0] is Dynamic);
        lemma_chain_nests(n, &*receiver.expr);
    }
}

/// [`range_chain_reduce`] asks for nothing but its parts.
pub broadcast proof fn lemma_range_chain_reduce_agrees<L: SubLowering, H: SubLowering>(
    l: L,
    h: H,
    n: nat,
    path: Seq<TokenKey>,
    args: Seq<CallArg>,
    range: TokenRange,
    scope: Scope<'_>,
    at: SlotsView,
)
    requires
        #[trigger] agree(l, h, n),
        alike(l, h),
        keys_nest(n, path),
        args_nest(n, args),
    ensures
        #[trigger] range_chain_reduce(
            l,
            path,
            args,
            range,
            scope,
            at,
        ) == #[trigger] range_chain_reduce(
            h,
            path,
            args,
            range,
            scope,
            at,
        ),
{
    broadcast use lemma_pipeline_fragment_agrees;

    if args.len() == 2 {
        assert(nests(n, *args[0].value.expr) && nests(n, *args[1].value.expr));
        if let (Some(receiver), Some((params, body))) = (
            method_receiver(path, "reduce"@),
            fold_closure(args[1].value),
        ) {
            assert(path[0] is Dynamic);
            lemma_chain_nests(n, &*receiver.expr);
            lemma_closure_nests(n, *args[1].value.expr);
        }
    }
}

/// [`nested_range_map_reduce`] asks for nothing but its parts.
pub broadcast proof fn lemma_nested_range_map_reduce_agrees<L: SubLowering, H: SubLowering>(
    l: L,
    h: H,
    n: nat,
    path: Seq<TokenKey>,
    args: Seq<CallArg>,
    range: TokenRange,
    scope: Scope<'_>,
    at: SlotsView,
)
    requires
        #[trigger] agree(l, h, n),
        alike(l, h),
        keys_nest(n, path),
        args_nest(n, args),
    ensures
        #[trigger] nested_range_map_reduce(
            l,
            path,
            args,
            range,
            scope,
            at,
        ) == #[trigger] nested_range_map_reduce(
            h,
            path,
            args,
            range,
            scope,
            at,
        ),
{
    broadcast use lemma_nested_fragment_agrees;

    if args.len() == 2 {
        assert(nests(n, *args[0].value.expr) && nests(n, *args[1].value.expr));
        if let (Some(receiver), Some((params, body))) = (
            method_receiver(path, "reduce"@),
            fold_closure(args[1].value),
        ) {
            assert(path[0] is Dynamic);
            lemma_nested_map_nests(n, &*receiver.expr);
            lemma_closure_nests(n, *args[1].value.expr);
            lemma_outer_combine_nests(n, *body.expr, params@[0].name@, params@[1].name@);
        }
    }
}

/// [`len_filter_range`] asks for nothing but its parts.
pub broadcast proof fn lemma_len_filter_range_agrees<L: SubLowering, H: SubLowering>(
    l: L,
    h: H,
    n: nat,
    path: Seq<TokenKey>,
    args: Seq<CallArg>,
    range: TokenRange,
    scope: Scope<'_>,
    at: SlotsView,
)
    requires
        #[trigger] agree(l, h, n),
        alike(l, h),
        keys_nest(n, path),
        args_nest(n, args),
    ensures
        #[trigger] len_filter_range(l, path, args, range, scope, at) == #[trigger] len_filter_range(
            h,
            path,
            args,
            range,
            scope,
            at,
        ),
{
    broadcast use lemma_pipeline_fragment_agrees;

    if len_call(path, args) {
        let filter = *args[0].value.expr;
        assert(nests(n, filter));
        if let Expr::FnCall { path: _, args: inner } = filter {
            lemma_call_nests(n, filter);
            if inner@.len() == 2 {
                assert(nests(n, *inner@[0].value.expr) && nests(n, *inner@[1].value.expr));
                lemma_bare_range_nests(n, &*inner@[0].value.expr);
                if *inner@[1].value.expr is Closure {
                    lemma_closure_nests(n, *inner@[1].value.expr);
                }
            }
        }
    }
}

} // verus!

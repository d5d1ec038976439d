//! Calls of list routines and comprehensions leave exactly one value.

use vstd::prelude::*;

use crate::ast::{CallArg, ClosureParam, Node, TokenKey, TokenRange};
use crate::chain::StageMethod;
use crate::comprehension::{
    comprehension, filtered_source, map_pass, pass_tail, variant_comprehension, variant_map_routine,
};
use crate::error::ErrorView;
use crate::fragment::{
    let_get, let_set, slot_at, valued, FragmentView, Scope, SlotsView, SubLowering,
};
use crate::ir::{sop, IrType, SimpleOp};
use crate::list_calls::{
    bound_list_reduce, filter_routine, fold_init, fold_tail, hof_call, hof_element, hof_method,
    hof_tail, list_filter, list_fold, list_len, list_map, list_reduce, list_sum_value, map_routines,
    map_tail, materialized_list_reduce, type_const, FoldKind,
};
use crate::materialize::{bump_i32, element_address};
use crate::neat_lists::{lemma_bump, lemma_element_address, lemma_payload_address};
use crate::neat_ranges::{lemma_exit_guard, lemma_loop};
use crate::range_loop::{exit_guard, loop_op};
use crate::stack::{
    group_tally, neat, neat_lowering, neat_maybe, neat_maybe_suffix, neat_outcome, neat_suffix,
    neat_value, op_tally, passing, settles, tally,
};
use crate::stdlib::StdlibTable;
use crate::types::TypeRepr;

verus! {

broadcast use group_tally;

proof fn lemma_map_tail_is_neat<L: SubLowering>(
    low: L,
    table: StdlibTable,
    elem: IrType,
    from: int,
    closure: Node,
    range: TokenRange,
    scope: Scope<'_>,
    at: SlotsView,
)
    requires
        neat_lowering(low),
        0 <= from,
    ensures
        neat_maybe_suffix(map_tail(low, table, elem, from, closure, range, scope, at)),
    decreases map_routines(elem).len() - from,
{
    if from < map_routines(elem).len() {
        lemma_map_tail_is_neat(low, table, elem, from + 1, closure, range, scope, at);
    }
}

/// A `map` or `filter` behind its list takes the list and leaves the result.
pub proof fn law_hof_tail_is_neat<L: SubLowering>(
    low: L,
    table: StdlibTable,
    kind: StageMethod,
    elem: IrType,
    closure: Node,
    range: TokenRange,
    scope: Scope<'_>,
    at: SlotsView,
)
    requires
        neat_lowering(low),
    ensures
        neat_maybe_suffix(hof_tail(low, table, kind, elem, closure, range, scope, at)),
{
    lemma_map_tail_is_neat(low, table, elem, 0, closure, range, scope, at);
}

/// A `map` or `filter` written as a method takes the list and leaves the
/// result.
pub proof fn law_hof_method_is_neat<L: SubLowering>(
    low: L,
    table: StdlibTable,
    kind: StageMethod,
    receiver_ty: IrType,
    closure: Node,
    range: TokenRange,
    scope: Scope<'_>,
    at: SlotsView,
)
    requires
        neat_lowering(low),
    ensures
        neat_maybe_suffix(hof_method(low, table, kind, receiver_ty, closure, range, scope, at)),
{
    match hof_element(receiver_ty) {
        Some(elem) => {
            law_hof_tail_is_neat(low, table, kind, elem, closure, range, scope, at);
        },
        None => {},
    }
}

proof fn lemma_hof_call_is_neat<L: SubLowering>(
    low: L,
    table: StdlibTable,
    kind: StageMethod,
    args: Seq<CallArg>,
    range: TokenRange,
    scope: Scope<'_>,
    at: SlotsView,
)
    requires
        neat_lowering(low),
    ensures
        neat_maybe(hof_call(low, table, kind, args, range, scope, at)),
{
    match low.lowered(args[0].value, scope, at) {
        Err(_) => {},
        Ok(src) => match src.ty {
            None => {},
            Some(ty) => match hof_element(ty) {
                None => {},
                Some(elem) => {
                    law_hof_tail_is_neat(
                        low,
                        table,
                        kind,
                        elem,
                        args[1].value,
                        range,
                        scope,
                        src.slots,
                    );
                },
            },
        },
    }
}

proof fn lemma_fold_tail_is_neat<L: SubLowering>(
    low: L,
    table: StdlibTable,
    kind: FoldKind,
    src: FragmentView,
    args: Seq<CallArg>,
    range: TokenRange,
    scope: Scope<'_>,
)
    requires
        neat_lowering(low),
        src.ty is Some,
        neat(src),
    ensures
        neat_outcome(fold_tail(low, table, kind, src, args, range, scope)),
{
    assert(neat_value(fold_init(low, kind, args[1].value, scope, src.slots)));
}

proof fn lemma_list_fold_is_neat<L: SubLowering>(
    low: L,
    table: StdlibTable,
    args: Seq<CallArg>,
    range: TokenRange,
    scope: Scope<'_>,
    at: SlotsView,
)
    requires
        neat_lowering(low),
    ensures
        neat_maybe(list_fold(low, table, args, range, scope, at)),
{
    match low.lowered(args[0].value, scope, at) {
        Err(_) => {},
        Ok(src) => {
            if src.ty == Some(IrType::ListFloat) {
                lemma_fold_tail_is_neat(low, table, FoldKind::Float, src, args, range, scope);
            } else if src.ty == Some(IrType::ListInt) {
                lemma_fold_tail_is_neat(low, table, FoldKind::Int, src, args, range, scope);
            }
        },
    }
}

/// The fold of a bound list leaves its accumulator and nothing else.
#[verifier::rlimit(40)]
pub proof fn law_bound_list_fold_is_neat<L: SubLowering>(
    low: L,
    list: u32,
    init: Node,
    params: Seq<ClosureParam>,
    body: Node,
    range: TokenRange,
    scope: Scope<'_>,
    at: SlotsView,
)
    requires
        neat_lowering(low),
    ensures
        neat_outcome(bound_list_reduce(low, list, init, params, body, range, scope, at)),
{
    let base = at.lets;
    let count = slot_at(at.lets, 1);
    let payload = slot_at(at.lets, 2);
    let i = slot_at(at.lets, 3);
    let acc = slot_at(at.lets, 4);
    let seeded = valued(
        low.lowered(init, scope, at.after(5)),
        "materialised-list reduce: init produced no value"@,
        init.range,
    );
    match (seeded, bound_list_reduce(low, list, init, params, body, range, scope, at)) {
        (Ok(seed), Ok(f)) => {
            let acc_ty = seed.ty->0;
            let elem_ty = if low.list_use(params[1].name@, *body.expr) {
                IrType::ListInt
            } else {
                IrType::I64
            };
            let acc_param = seed.slots.lets;
            let elem_param = slot_at(seed.slots.lets, 1);
            let raw = slot_at(seed.slots.lets, 2);
            let value = low.lowered(
                body,
                scope.with(params[0].name, acc_param, acc_ty).with(
                    params[1].name,
                    elem_param,
                    elem_ty,
                ),
                seed.slots.after(3),
            );
            let v = value->Ok_0;
            let turn = ((exit_guard(i, count, IrType::I32, 1, range) + element_address(
                payload,
                i,
                range,
            )).push(sop(SimpleOp::LoadI64AtAbsolute { offset: 0 }, range)).push(
                let_set(raw, IrType::I64, range),
            ).push(let_get(acc, acc_ty, range)).push(let_set(acc_param, acc_ty, range)).push(
                let_get(raw, IrType::I64, range),
            ).push(let_set(elem_param, elem_ty, range)) + v.ops).push(
                let_set(acc, acc_ty, range),
            ) + bump_i32(i, range) + seq![sop(SimpleOp::Br { label_depth: 0 }, range)];
            assert forall|labels: nat| #[trigger] op_tally(loop_op(turn, range), labels)
                == passing(0, 0) by {
                lemma_exit_guard(i, count, IrType::I32, 1, range, labels + 2);
                lemma_element_address(payload, i, range, labels + 2);
                lemma_bump(i, range, labels + 2);
                lemma_loop(turn, range, labels);
            }
            let head = seq![
                let_get(list, IrType::ListInt, range),
                let_set(base, IrType::ListInt, range),
                let_get(base, IrType::ListInt, range),
                sop(SimpleOp::LoadI32AtAbsolute { offset: 0 }, range),
                let_set(count, IrType::I32, range),
            ];
            assert forall|labels: nat| settles(#[trigger] tally(f.ops, labels), 0, 1) by {
                lemma_bound_head(list, base, count, range, labels);
                lemma_payload_address(base, IrType::ListInt, payload, range, labels);
            }
        },
        _ => {},
    }
}

proof fn lemma_bound_head(list: u32, base: u32, count: u32, range: TokenRange, labels: nat)
    ensures
        tally(
            seq![
                let_get(list, IrType::ListInt, range),
                let_set(base, IrType::ListInt, range),
                let_get(base, IrType::ListInt, range),
                sop(SimpleOp::LoadI32AtAbsolute { offset: 0 }, range),
                let_set(count, IrType::I32, range),
            ],
            labels,
        ) == passing(0, 0),
{
    reveal_with_fuel(tally, 7);
    reveal_with_fuel(op_tally, 7);
}

/// Every fused call of a list routine leaves exactly its value.
pub proof fn law_list_calls_are_neat<L: SubLowering>(
    low: L,
    table: StdlibTable,
    path: Seq<TokenKey>,
    args: Seq<CallArg>,
    range: TokenRange,
    scope: Scope<'_>,
    at: SlotsView,
)
    requires
        neat_lowering(low),
    ensures
        neat_maybe(list_len(low, path, args, range, scope, at)),
        neat_maybe(list_sum_value(low, table, path, args, range, scope, at)),
        neat_maybe(list_map(low, table, path, args, range, scope, at)),
        neat_maybe(list_filter(low, table, path, args, range, scope, at)),
        neat_maybe(list_reduce(low, table, path, args, range, scope, at)),
        neat_maybe(materialized_list_reduce(low, path, args, range, scope, at)),
{
    lemma_hof_call_is_neat(low, table, StageMethod::Transform, args, range, scope, at);
    lemma_hof_call_is_neat(low, table, StageMethod::Retain, args, range, scope, at);
    lemma_list_fold_is_neat(low, table, args, range, scope, at);
    assert forall|list: u32, init: Node, params: Seq<ClosureParam>, body: Node| neat_outcome(
        #[trigger] bound_list_reduce(low, list, init, params, body, range, scope, at),
    ) by {
        law_bound_list_fold_is_neat(low, list, init, params, body, range, scope, at);
    }
    assert(neat_maybe(list_filter(low, table, path, args, range, scope, at))) by {
        match low.lowered(args[0].value, scope, at) {
            Err(_) => {},
            Ok(src) => {
                assert(neat(src));
            },
        }
    }
}

/// The name of a type leaves a string in place of the value.
pub proof fn law_type_constant_is_neat<L: SubLowering>(
    low: L,
    path: Seq<TokenKey>,
    args: Seq<CallArg>,
    range: TokenRange,
    scope: Scope<'_>,
    at: SlotsView,
)
    requires
        neat_lowering(low),
    ensures
        neat_maybe(type_const(low, path, args, range, scope, at)),
{
}

proof fn lemma_pass_is_neat<L: SubLowering>(
    low: L,
    table: StdlibTable,
    routine: Seq<char>,
    id: Seq<char>,
    body: Node,
    ret_ty: Option<IrType>,
    expected: Option<TypeRepr>,
    range: TokenRange,
    scope: Scope<'_>,
    at: SlotsView,
)
    requires
        neat_lowering(low),
    ensures
        neat_suffix(
            pass_tail(low, table, routine, id, body, ret_ty, expected, range, scope, at),
        ),
{
}

proof fn lemma_map_pass_is_neat<L: SubLowering>(
    low: L,
    table: StdlibTable,
    elem: IrType,
    src_ty: Option<IrType>,
    id: Seq<char>,
    body: Node,
    from: int,
    last: Option<ErrorView>,
    range: TokenRange,
    scope: Scope<'_>,
    at: SlotsView,
)
    requires
        neat_lowering(low),
        0 <= from,
    ensures
        neat_suffix(
            map_pass(low, table, elem, src_ty, id, body, from, last, range, scope, at),
        ),
    decreases map_routines(elem).len() - from,
{
    if from < map_routines(elem).len() {
        let (ret_ty, name) = map_routines(elem)[from];
        lemma_pass_is_neat(low, table, name, id, body, Some(ret_ty), None, range, scope, at);
        match pass_tail(low, table, name, id, body, Some(ret_ty), None, range, scope, at) {
            Ok(_) => {},
            Err(e) => {
                lemma_map_pass_is_neat(
                    low,
                    table,
                    elem,
                    src_ty,
                    id,
                    body,
                    from + 1,
                    last,
                    range,
                    scope,
                    at,
                );
                lemma_map_pass_is_neat(
                    low,
                    table,
                    elem,
                    src_ty,
                    id,
                    body,
                    from + 1,
                    Some(e),
                    range,
                    scope,
                    at,
                );
            },
        }
    }
}

proof fn lemma_filtered_source_is_neat<L: SubLowering>(
    low: L,
    table: StdlibTable,
    src: FragmentView,
    routine: Option<Seq<char>>,
    id: Seq<char>,
    condition: Option<Node>,
    range: TokenRange,
    scope: Scope<'_>,
)
    requires
        neat_lowering(low),
        src.ty is Some,
        neat(src),
    ensures
        neat_value(filtered_source(low, table, src, routine, id, condition, range, scope)),
{
    match (condition, routine) {
        (Some(cond), Some(name)) => {
            lemma_pass_is_neat(
                low,
                table,
                name,
                id,
                cond,
                None,
                None,
                range,
                scope,
                src.slots,
            );
        },
        _ => {},
    }
}

/// A comprehension leaves its list and nothing else.
pub proof fn law_comprehension_is_neat<L: SubLowering>(
    low: L,
    table: StdlibTable,
    element: Node,
    id: Seq<char>,
    iterable: Node,
    condition: Option<Node>,
    range: TokenRange,
    scope: Scope<'_>,
    at: SlotsView,
)
    requires
        neat_lowering(low),
    ensures
        neat_value(
            comprehension(low, table, element, id, iterable, condition, range, scope, at),
        ),
{
    match low.lowered(iterable, scope, at) {
        Err(_) => {},
        Ok(src) => match src.ty {
            None => {},
            Some(ty) => match hof_element(ty) {
                None => {},
                Some(elem) => {
                    lemma_filtered_source_is_neat(
                        low,
                        table,
                        src,
                        filter_routine(elem),
                        id,
                        condition,
                        range,
                        scope,
                    );
                    match filtered_source(
                        low,
                        table,
                        src,
                        filter_routine(elem),
                        id,
                        condition,
                        range,
                        scope,
                    ) {
                        Err(_) => {},
                        Ok(list) => {
                            lemma_map_pass_is_neat(
                                low,
                                table,
                                elem,
                                src.ty,
                                id,
                                element,
                                0,
                                None,
                                range,
                                scope,
                                list.slots,
                            );
                        },
                    }
                },
            },
        },
    }
}

/// A comprehension of variants leaves its list and nothing else.
pub proof fn law_variant_comprehension_is_neat<L: SubLowering>(
    low: L,
    table: StdlibTable,
    expected: TypeRepr,
    element: Node,
    id: Seq<char>,
    iterable: Node,
    condition: Option<Node>,
    range: TokenRange,
    scope: Scope<'_>,
    at: SlotsView,
)
    requires
        neat_lowering(low),
    ensures
        neat_value(
            variant_comprehension(
                low,
                table,
                expected,
                element,
                id,
                iterable,
                condition,
                range,
                scope,
                at,
            ),
        ),
{
    match low.lowered(iterable, scope, at) {
        Err(_) => {},
        Ok(src) => match variant_map_routine(src.ty) {
            None => {},
            Some(routine) => {
                let filter = filter_routine(hof_element(src.ty->0)->0);
                lemma_filtered_source_is_neat(
                    low,
                    table,
                    src,
                    filter,
                    id,
                    condition,
                    range,
                    scope,
                );
                match filtered_source(low, table, src, filter, id, condition, range, scope) {
                    Err(_) => {},
                    Ok(list) => {
                        lemma_pass_is_neat(
                            low,
                            table,
                            routine,
                            id,
                            element,
                            None,
                            Some(expected),
                            range,
                            scope,
                            list.slots,
                        );
                    },
                }
            },
        },
    }
}

} // verus!

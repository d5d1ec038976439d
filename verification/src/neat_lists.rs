//! Lists built at run time leave exactly one handle.

use vstd::prelude::*;

use crate::ast::{CallArg, Expr, Node, TokenKey, TokenRange};
use crate::chain::{bare_range, single_map};
use crate::fragment::{let_get, let_set, slot_at, FragmentView, Scope, SlotsView, SubLowering};
use crate::ir::{sop, IrType, OpView, SimpleOp, TaggedOpView};
use crate::materialize::{
    alloc_list, bump_i32, cell_value, clamp_span, element_address, element_stores, element_value,
    init_cursor, is_list_value, lemma_map_body_smaller, list_prologue, list_value, literal_header,
    literal_list, mapped_list, payload_address, range_list, range_value, store_and_advance,
    LiteralKind,
};
use crate::neat_ranges::{lemma_exit_guard, lemma_loop, lemma_step_and_loop};
use crate::range_loop::{end_value, exit_guard, loop_op, start_value};
use crate::stack::{
    group_tally, neat, neat_lowering, neat_maybe, neat_outcome, op_tally, passing, settles, tally,
    Tally,
};

verus! {

broadcast use group_tally;

/// The address of the first element is stored, and nothing is left.
pub proof fn lemma_payload_address(
    base: u32,
    base_ty: IrType,
    target: u32,
    range: TokenRange,
    labels: nat,
)
    ensures
        tally(payload_address(base, base_ty, target, range), labels) == passing(0, 0),
{
    reveal_with_fuel(tally, 8);
    reveal_with_fuel(op_tally, 8);
}

/// The address of an element is left.
pub proof fn lemma_element_address(payload: u32, i: u32, range: TokenRange, labels: nat)
    ensures
        tally(element_address(payload, i, range), labels) == passing(0, 1),
{
    reveal_with_fuel(tally, 7);
    reveal_with_fuel(op_tally, 7);
}

/// The increment of an index leaves nothing.
pub proof fn lemma_bump(i: u32, range: TokenRange, labels: nat)
    ensures
        tally(bump_i32(i, range), labels) == passing(0, 0),
{
    reveal_with_fuel(tally, 6);
    reveal_with_fuel(op_tally, 6);
}

proof fn lemma_clamp_span(span: u32, count: u32, range: TokenRange, labels: nat)
    ensures
        tally(clamp_span(span, count, range), labels) == passing(0, 0),
{
    let positive = seq![let_get(span, IrType::I64, range)];
    let zero = seq![sop(SimpleOp::ConstI64(0), range)];
    assert(tally(positive, 0) == passing(0, 1));
    assert(tally(zero, 0) == passing(0, 1));
    let choice = TaggedOpView {
        op: OpView::If { result_ty: IrType::I64, then_body: positive, else_body: zero },
        range,
    };
    assert(op_tally(choice, labels) == passing(1, 1));
    assert(clamp_span(span, count, range) =~= Seq::empty().push(
        let_get(span, IrType::I64, range),
    ).push(sop(SimpleOp::ConstI64(0), range)).push(sop(SimpleOp::Gt(IrType::I64), range)).push(
        choice,
    ).push(let_set(count, IrType::I32, range)));
}

proof fn lemma_alloc_list(count: u32, base: u32, range: TokenRange, labels: nat)
    ensures
        tally(alloc_list(count, base, range), labels) == passing(0, 0),
{
    reveal_with_fuel(tally, 12);
    reveal_with_fuel(op_tally, 12);
}

proof fn lemma_init_cursor(start: u32, i: u32, elem: u32, range: TokenRange, labels: nat)
    ensures
        tally(init_cursor(start, i, elem, range), labels) == passing(0, 0),
{
    reveal_with_fuel(tally, 6);
    reveal_with_fuel(op_tally, 6);
}

proof fn lemma_literal_header(n: int, base: u32, range: TokenRange, labels: nat)
    ensures
        tally(literal_header(n, base, range), labels) == passing(0, 0),
{
    reveal_with_fuel(tally, 8);
    reveal_with_fuel(op_tally, 8);
}

proof fn lemma_prologue_is_neat<L: SubLowering>(
    low: L,
    args: Seq<CallArg>,
    range: TokenRange,
    scope: Scope<'_>,
    base: u32,
    at: SlotsView,
)
    requires
        neat_lowering(low),
    ensures
        list_prologue(low, args, range, scope, base, at) matches Ok(f) ==> f.ty is None && neat(f),
{
    let lo = start_value(low, args, range, scope, at);
    assert(neat_outcome(lo));
    match lo {
        Err(_) => {},
        Ok(lo) => {
            let hi = end_value(low, args, range, scope, lo.slots);
            assert(neat_outcome(hi));
            match hi {
                Err(_) => {},
                Ok(hi) => {
                    let f = list_prologue(low, args, range, scope, base, at)->Ok_0;
                    assert forall|labels: nat| settles(#[trigger] tally(f.ops, labels), 0, 0) by {
                        lemma_clamp_span(slot_at(base, 1), slot_at(base, 2), range, labels);
                        lemma_alloc_list(slot_at(base, 2), slot_at(base, 3), range, labels);
                        lemma_payload_address(
                            slot_at(base, 3),
                            IrType::I32,
                            slot_at(base, 4),
                            range,
                            labels,
                        );
                        lemma_init_cursor(
                            base,
                            slot_at(base, 5),
                            slot_at(base, 6),
                            range,
                            labels,
                        );
                    }
                },
            }
        },
    }
}

proof fn lemma_store_and_advance(
    payload: u32,
    i: u32,
    elem: u32,
    val: u32,
    range: TokenRange,
    labels: nat,
)
    requires
        labels > 0,
    ensures
        tally(store_and_advance(payload, i, elem, val, range), labels) == (Tally::Gone {
            needs: 0,
        }),
{
    lemma_element_address(payload, i, range, labels);
    lemma_bump(i, range, labels);
    lemma_step_and_loop(elem, range, labels);
}

/// A range built as a list leaves its handle and nothing else.
pub proof fn law_range_list_is_neat<L: SubLowering>(
    low: L,
    args: Seq<CallArg>,
    range: TokenRange,
    scope: Scope<'_>,
    at: SlotsView,
)
    requires
        neat_lowering(low),
    ensures
        neat_outcome(range_list(low, args, range, scope, at)),
{
    let base = at.lets;
    let elem = slot_at(base, 6);
    lemma_prologue_is_neat(low, args, range, scope, base, at.after(7));
    let body = exit_guard(slot_at(base, 5), slot_at(base, 2), IrType::I32, 1, range)
        + store_and_advance(slot_at(base, 4), slot_at(base, 5), elem, elem, range);
    assert forall|labels: nat| #[trigger] op_tally(loop_op(body, range), labels) == passing(
        0,
        0,
    ) by {
        lemma_exit_guard(slot_at(base, 5), slot_at(base, 2), IrType::I32, 1, range, labels + 2);
        lemma_store_and_advance(
            slot_at(base, 4),
            slot_at(base, 5),
            elem,
            elem,
            range,
            labels + 2,
        );
        lemma_loop(body, range, labels);
    }
}

proof fn lemma_mapped_list_is_neat(
    pre: FragmentView,
    value: FragmentView,
    base: u32,
    range: TokenRange,
)
    requires
        pre.ty is None,
        neat(pre),
        value.ty is Some,
        neat(value),
    ensures
        neat(mapped_list(pre, value, base, range)),
{
    let param = pre.slots.lets;
    let elem = slot_at(base, 6);
    let val = slot_at(base, 7);
    let body = (exit_guard(slot_at(base, 5), slot_at(base, 2), IrType::I32, 1, range).push(
        let_get(elem, IrType::I64, range),
    ).push(let_set(param, IrType::I64, range)) + value.ops).push(let_set(val, IrType::I64, range))
        + store_and_advance(slot_at(base, 4), slot_at(base, 5), elem, val, range);
    assert forall|labels: nat| #[trigger] op_tally(loop_op(body, range), labels) == passing(
        0,
        0,
    ) by {
        lemma_exit_guard(slot_at(base, 5), slot_at(base, 2), IrType::I32, 1, range, labels + 2);
        lemma_store_and_advance(slot_at(base, 4), slot_at(base, 5), elem, val, range, labels + 2);
        lemma_loop(body, range, labels);
    }
}

/// A mapped range built as a list, to any depth, leaves its handle and nothing
/// else.
pub proof fn law_list_value_is_neat<L: SubLowering>(
    low: L,
    expr: Expr,
    range: TokenRange,
    scope: Scope<'_>,
    at: SlotsView,
)
    requires
        neat_lowering(low),
    ensures
        neat_outcome(list_value(low, expr, range, scope, at)),
        list_value(low, expr, range, scope, at) matches Ok(f) ==> f.ty is Some,
    decreases expr,
{
    match bare_range(&expr) {
        Some(args) => {
            law_range_list_is_neat(low, args@, range, scope, at);
        },
        None => match single_map(&expr) {
            None => {},
            Some((args, param, body)) => {
                lemma_map_body_smaller(expr);
                let base = at.lets;
                lemma_prologue_is_neat(low, args@, range, scope, base, at.after(8));
                match list_prologue(low, args@, range, scope, base, at.after(8)) {
                    Err(_) => {},
                    Ok(pre) => {
                        let inner = scope.with(param.name, pre.slots.lets, IrType::I64);
                        if is_list_value(*body.expr) {
                            law_list_value_is_neat(
                                low,
                                *body.expr,
                                body.range,
                                inner,
                                pre.slots.after(1),
                            );
                            match list_value(
                                low,
                                *body.expr,
                                body.range,
                                inner,
                                pre.slots.after(1),
                            ) {
                                Err(_) => {},
                                Ok(v) => {
                                    lemma_mapped_list_is_neat(pre, v, base, range);
                                },
                            }
                        } else {
                            match cell_value(low, *body, inner, pre.slots.after(1)) {
                                Err(_) => {},
                                Ok(v) => {
                                    lemma_mapped_list_is_neat(pre, v, base, range);
                                },
                            }
                        }
                    },
                }
            },
        },
    }
}

proof fn lemma_element_stores_are_neat<L: SubLowering>(
    low: L,
    kind: LiteralKind,
    items: Seq<Node>,
    payload: u32,
    range: TokenRange,
    scope: Scope<'_>,
    at: SlotsView,
)
    requires
        neat_lowering(low),
    ensures
        element_stores(low, kind, items, payload, range, scope, at) matches Ok(f) ==> f.ty is None
            && neat(f),
    decreases items.len(),
{
    if items.len() > 0 {
        let index = (items.len() - 1) as nat;
        lemma_element_stores_are_neat(
            low,
            kind,
            items.drop_last(),
            payload,
            range,
            scope,
            at,
        );
        match element_stores(low, kind, items.drop_last(), payload, range, scope, at) {
            Err(_) => {},
            Ok(pre) => {
                assert(neat_outcome(
                    element_value(low, kind, items.last(), index, scope, pre.slots),
                ));
            },
        }
    }
}

/// A list literal with computed elements leaves its handle and nothing else.
pub proof fn law_literal_list_is_neat<L: SubLowering>(
    low: L,
    kind: LiteralKind,
    items: Seq<Node>,
    range: TokenRange,
    scope: Scope<'_>,
    at: SlotsView,
)
    requires
        neat_lowering(low),
    ensures
        neat_outcome(literal_list(low, kind, items, range, scope, at)),
{
    let payload = slot_at(at.lets, 1);
    lemma_element_stores_are_neat(low, kind, items, payload, range, scope, at.after(2));
    match literal_list(low, kind, items, range, scope, at) {
        Err(_) => {},
        Ok(f) => {
            assert forall|labels: nat| settles(#[trigger] tally(f.ops, labels), 0, 1) by {
                lemma_literal_header(items.len() as int, at.lets, range, labels);
                lemma_payload_address(at.lets, IrType::I32, payload, range, labels);
            }
        },
    }
}

/// A bare range used as a value leaves its handle and nothing else.
pub proof fn law_range_value_is_neat<L: SubLowering>(
    low: L,
    path: Seq<TokenKey>,
    args: Seq<CallArg>,
    range: TokenRange,
    scope: Scope<'_>,
    at: SlotsView,
)
    requires
        neat_lowering(low),
    ensures
        neat_maybe(range_value(low, path, args, range, scope, at)),
{
    law_range_list_is_neat(low, args, range, scope, at);
}

} // verus!

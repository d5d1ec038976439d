//! Lists built at run time have let slots of their own.

use vstd::prelude::*;

use crate::ast::{CallArg, Expr, Node, TokenKey, TokenRange};
use crate::chain::{bare_range, single_map};
use crate::fragment::{let_get, let_set, slot_at, FragmentView, Scope, SlotsView, SubLowering};
use crate::fresh::{
    fresh, fresh_maybe, fresh_since, freshening, freshly, given, group_owned, one_typed, op_owned,
    op_sets, owned, passes, sets,
};
use crate::fresh_ranges::lemma_step_owned;
use crate::ir::{sop, IrType, OpView, SimpleOp, TaggedOpView};
use crate::materialize::{
    alloc_list, bump_i32, cell_value, clamp_span, element_stores, element_value, init_cursor,
    is_list_value, lemma_map_body_smaller, list_prologue, list_value, literal_header, literal_list,
    mapped_list, payload_address, range_list, range_value, store_and_advance, LiteralKind,
};
use crate::range_loop::{end_value, start_value};

verus! {

broadcast use group_owned;

/// The slots of a list under construction, counted from `base`: the bounds, the
/// length, the record and its elements, the position, the element and its value.
pub open spec fn list_slot(base: u32, n: u32, t: IrType) -> bool {
    ||| n == base && t == IrType::I64
    ||| n == slot_at(base, 1) && t == IrType::I64
    ||| n == slot_at(base, 2) && t == IrType::I32
    ||| n == slot_at(base, 3) && t == IrType::I32
    ||| n == slot_at(base, 4) && t == IrType::I32
    ||| n == slot_at(base, 5) && t == IrType::I32
    ||| n == slot_at(base, 6) && t == IrType::I64
}

/// Beside the slots of a list under construction, the instructions set only
/// slots handed out between the two states.
pub open spec fn sets_list(
    ops: Seq<TaggedOpView>,
    base: u32,
    a: SlotsView,
    b: SlotsView,
) -> bool {
    forall|n: u32, t: IrType| #[trigger]
        sets(ops, n, t) ==> list_slot(base, n, t) || given(n, a.lets, b.lets)
}

proof fn lemma_clamp_owned(
    span: u32,
    count: u32,
    range: TokenRange,
    a: SlotsView,
    b: SlotsView,
)
    requires
        given(count, a.lets, b.lets),
    ensures
        owned(clamp_span(span, count, range), a, b),
        forall|n: u32, t: IrType| #[trigger]
            sets(clamp_span(span, count, range), n, t) ==> n == count && t == IrType::I32,
{
    let positive = seq![let_get(span, IrType::I64, range)];
    let zero = seq![sop(SimpleOp::ConstI64(0), range)];
    assert(owned(positive, a, b));
    assert(owned(zero, a, b));
    let choice = TaggedOpView {
        op: OpView::If { result_ty: IrType::I64, then_body: positive, else_body: zero },
        range,
    };
    assert(op_owned(choice, a, b));
    assert forall|n: u32, t: IrType| !(#[trigger] op_sets(choice, n, t)) by {
        assert(!sets(positive, n, t));
        assert(!sets(zero, n, t));
    }
    assert(clamp_span(span, count, range) =~= Seq::empty().push(
        let_get(span, IrType::I64, range),
    ).push(sop(SimpleOp::ConstI64(0), range)).push(sop(SimpleOp::Gt(IrType::I64), range)).push(
        choice,
    ).push(let_set(count, IrType::I32, range)));
}

/// The address of the elements is put into its slot.
pub proof fn lemma_payload_owned(
    base: u32,
    base_ty: IrType,
    target: u32,
    range: TokenRange,
    a: SlotsView,
    b: SlotsView,
)
    requires
        given(target, a.lets, b.lets),
    ensures
        owned(payload_address(base, base_ty, target, range), a, b),
{
}

proof fn lemma_alloc_owned(count: u32, base: u32, range: TokenRange, a: SlotsView, b: SlotsView)
    requires
        given(base, a.lets, b.lets),
    ensures
        owned(alloc_list(count, base, range), a, b),
{
}

proof fn lemma_cursor_owned(
    start: u32,
    i: u32,
    elem: u32,
    range: TokenRange,
    a: SlotsView,
    b: SlotsView,
)
    requires
        given(i, a.lets, b.lets),
        given(elem, a.lets, b.lets),
    ensures
        owned(init_cursor(start, i, elem, range), a, b),
{
}

/// Stepping a counter sets it.
pub proof fn lemma_bump_owned(i: u32, range: TokenRange, a: SlotsView, b: SlotsView)
    requires
        given(i, a.lets, b.lets),
    ensures
        owned(bump_i32(i, range), a, b),
{
}

proof fn lemma_advance_owned(
    payload: u32,
    i: u32,
    elem: u32,
    val: u32,
    range: TokenRange,
    a: SlotsView,
    b: SlotsView,
)
    requires
        given(i, a.lets, b.lets),
        given(elem, a.lets, b.lets),
    ensures
        owned(store_and_advance(payload, i, elem, val, range), a, b),
{
    lemma_bump_owned(i, range, a, b);
    lemma_step_owned(elem, range, a, b);
}

proof fn lemma_prologue_sets(
    from: SlotsView,
    at: SlotsView,
    lo: FragmentView,
    hi: FragmentView,
    range: TokenRange,
)
    requires
        passes(from, at),
        at.lets == slot_at(from.lets, 7) || at.lets == slot_at(from.lets, 8),
        fresh_since(at, at, lo),
        fresh_since(lo.slots, lo.slots, hi),
    ensures
        sets_list(prologue_ops(from.lets, lo, hi, range), from.lets, at, hi.slots),
        hi.slots.lets < u32::MAX ==> one_typed(prologue_ops(from.lets, lo, hi, range)),
{
    let base = from.lets;
    let start = lo.ops.push(let_set(base, IrType::I64, range)) + hi.ops;
    let span = start.push(let_get(base, IrType::I64, range)).push(
        sop(SimpleOp::Sub(IrType::I64), range),
    ).push(let_set(slot_at(base, 1), IrType::I64, range));
    let clamp = clamp_span(slot_at(base, 1), slot_at(base, 2), range);
    let room = alloc_list(slot_at(base, 2), slot_at(base, 3), range);
    let address = payload_address(slot_at(base, 3), IrType::I32, slot_at(base, 4), range);
    let cursor = init_cursor(base, slot_at(base, 5), slot_at(base, 6), range);
    lemma_clamp_owned(slot_at(base, 1), slot_at(base, 2), range, from, at);
    assert forall|n: u32, t: IrType| #[trigger] sets(room, n, t) implies n == slot_at(base, 3) && t
        == IrType::I32 by {
    }
    assert forall|n: u32, t: IrType| #[trigger] sets(address, n, t) implies n == slot_at(base, 4)
        && t == IrType::I32 by {
    }
    assert forall|n: u32, t: IrType| #[trigger] sets(cursor, n, t) implies (n == slot_at(base, 5)
        && t == IrType::I32) || (n == slot_at(base, 6) && t == IrType::I64) by {
    }
    lemma_parts_one_typed(from, at, lo, hi, span, clamp, room, address, cursor, range);
}

/// The prologue of a list, given the code of its bounds.
pub open spec fn prologue_ops(
    base: u32,
    lo: FragmentView,
    hi: FragmentView,
    range: TokenRange,
) -> Seq<TaggedOpView> {
    (lo.ops.push(let_set(base, IrType::I64, range)) + hi.ops).push(
        let_get(base, IrType::I64, range),
    ).push(sop(SimpleOp::Sub(IrType::I64), range)).push(
        let_set(slot_at(base, 1), IrType::I64, range),
    ) + clamp_span(slot_at(base, 1), slot_at(base, 2), range) + alloc_list(
        slot_at(base, 2),
        slot_at(base, 3),
        range,
    ) + payload_address(slot_at(base, 3), IrType::I32, slot_at(base, 4), range) + init_cursor(
        base,
        slot_at(base, 5),
        slot_at(base, 6),
        range,
    )
}

proof fn lemma_parts_one_typed(
    from: SlotsView,
    at: SlotsView,
    lo: FragmentView,
    hi: FragmentView,
    span: Seq<TaggedOpView>,
    clamp: Seq<TaggedOpView>,
    room: Seq<TaggedOpView>,
    address: Seq<TaggedOpView>,
    cursor: Seq<TaggedOpView>,
    range: TokenRange,
)
    requires
        passes(from, at),
        at.lets == slot_at(from.lets, 7) || at.lets == slot_at(from.lets, 8),
        fresh_since(at, at, lo),
        fresh_since(lo.slots, lo.slots, hi),
        span == (lo.ops.push(let_set(from.lets, IrType::I64, range)) + hi.ops).push(
            let_get(from.lets, IrType::I64, range),
        ).push(sop(SimpleOp::Sub(IrType::I64), range)).push(
            let_set(slot_at(from.lets, 1), IrType::I64, range),
        ),
        forall|n: u32, t: IrType| #[trigger]
            sets(clamp, n, t) ==> n == slot_at(from.lets, 2) && t == IrType::I32,
        forall|n: u32, t: IrType| #[trigger]
            sets(room, n, t) ==> n == slot_at(from.lets, 3) && t == IrType::I32,
        forall|n: u32, t: IrType| #[trigger]
            sets(address, n, t) ==> n == slot_at(from.lets, 4) && t == IrType::I32,
        forall|n: u32, t: IrType| #[trigger]
            sets(cursor, n, t) ==> (n == slot_at(from.lets, 5) && t == IrType::I32) || (n
                == slot_at(from.lets, 6) && t == IrType::I64),
    ensures
        sets_list(span + clamp + room + address + cursor, from.lets, at, hi.slots),
        hi.slots.lets < u32::MAX ==> one_typed(span + clamp + room + address + cursor),
{
}

proof fn lemma_prologue_is_fresh<L: SubLowering>(
    low: L,
    args: Seq<CallArg>,
    range: TokenRange,
    scope: Scope<'_>,
    from: SlotsView,
    at: SlotsView,
)
    requires
        freshening(low),
        passes(from, at),
        at.lets == slot_at(from.lets, 7) || at.lets == slot_at(from.lets, 8),
    ensures
        freshly(from, at, list_prologue(low, args, range, scope, from.lets, at)),
        list_prologue(low, args, range, scope, from.lets, at) matches Ok(f) ==> sets_list(
            f.ops,
            from.lets,
            at,
            f.slots,
        ),
{
    let base = from.lets;
    let lo = start_value(low, args, range, scope, at);
    assert(fresh(at, lo));
    match lo {
        Err(_) => {},
        Ok(lo) => {
            let hi = end_value(low, args, range, scope, lo.slots);
            assert(fresh(lo.slots, hi));
            match hi {
                Err(_) => {},
                Ok(hi) => {
                    let end = hi.slots;
                    lemma_clamp_owned(slot_at(base, 1), slot_at(base, 2), range, from, end);
                    lemma_alloc_owned(slot_at(base, 2), slot_at(base, 3), range, from, end);
                    lemma_payload_owned(
                        slot_at(base, 3),
                        IrType::I32,
                        slot_at(base, 4),
                        range,
                        from,
                        end,
                    );
                    lemma_cursor_owned(base, slot_at(base, 5), slot_at(base, 6), range, from, end);
                    lemma_prologue_sets(from, at, lo, hi, range);
                    assert(owned(prologue_ops(base, lo, hi, range), from, end));
                },
            }
        },
    }
}

/// A range built as a list has slots of its own.
pub proof fn law_range_list_is_fresh<L: SubLowering>(
    low: L,
    args: Seq<CallArg>,
    range: TokenRange,
    scope: Scope<'_>,
    at: SlotsView,
)
    requires
        freshening(low),
    ensures
        fresh(at, range_list(low, args, range, scope, at)),
{
    let base = at.lets;
    lemma_prologue_is_fresh(low, args, range, scope, at, at.after(7));
    match list_prologue(low, args, range, scope, base, at.after(7)) {
        Err(_) => {},
        Ok(pre) => {
            lemma_advance_owned(
                slot_at(base, 4),
                slot_at(base, 5),
                slot_at(base, 6),
                slot_at(base, 6),
                range,
                at,
                pre.slots,
            );
        },
    }
}

proof fn lemma_mapped_list_is_fresh(
    at: SlotsView,
    pre: FragmentView,
    value: FragmentView,
    range: TokenRange,
)
    requires
        fresh_since(at, at.after(8), pre),
        sets_list(pre.ops, at.lets, at.after(8), pre.slots),
        fresh_since(pre.slots.after(1), pre.slots.after(1), value),
    ensures
        fresh_since(at, at, mapped_list(pre, value, at.lets, range)),
{
    let base = at.lets;
    lemma_advance_owned(
        slot_at(base, 4),
        slot_at(base, 5),
        slot_at(base, 6),
        slot_at(base, 7),
        range,
        at,
        value.slots,
    );
}

/// A mapped range built as a list, to any depth, has slots of its own.
pub proof fn law_list_value_is_fresh<L: SubLowering>(
    low: L,
    expr: Expr,
    range: TokenRange,
    scope: Scope<'_>,
    at: SlotsView,
)
    requires
        freshening(low),
    ensures
        fresh(at, list_value(low, expr, range, scope, at)),
    decreases expr,
{
    match bare_range(&expr) {
        Some(args) => {
            law_range_list_is_fresh(low, args@, range, scope, at);
        },
        None => match single_map(&expr) {
            None => {},
            Some((args, param, body)) => {
                lemma_map_body_smaller(expr);
                lemma_prologue_is_fresh(low, args@, range, scope, at, at.after(8));
                match list_prologue(low, args@, range, scope, at.lets, at.after(8)) {
                    Err(_) => {},
                    Ok(pre) => {
                        let inner = scope.with(param.name, pre.slots.lets, IrType::I64);
                        let behind = pre.slots.after(1);
                        if is_list_value(*body.expr) {
                            law_list_value_is_fresh(low, *body.expr, body.range, inner, behind);
                            match list_value(low, *body.expr, body.range, inner, behind) {
                                Err(_) => {},
                                Ok(v) => {
                                    lemma_mapped_list_is_fresh(at, pre, v, range);
                                },
                            }
                        } else {
                            match cell_value(low, *body, inner, behind) {
                                Err(_) => {},
                                Ok(v) => {
                                    assert(fresh_since(behind, behind, v));
                                    lemma_mapped_list_is_fresh(at, pre, v, range);
                                },
                            }
                        }
                    },
                }
            },
        },
    }
}

proof fn lemma_element_stores_are_fresh<L: SubLowering>(
    low: L,
    kind: LiteralKind,
    items: Seq<Node>,
    payload: u32,
    range: TokenRange,
    scope: Scope<'_>,
    at: SlotsView,
)
    requires
        freshening(low),
    ensures
        fresh(at, element_stores(low, kind, items, payload, range, scope, at)),
    decreases items.len(),
{
    if items.len() > 0 {
        let index = (items.len() - 1) as nat;
        lemma_element_stores_are_fresh(low, kind, items.drop_last(), payload, range, scope, at);
        match element_stores(low, kind, items.drop_last(), payload, range, scope, at) {
            Err(_) => {},
            Ok(pre) => {
                assert(fresh(
                    pre.slots,
                    element_value(low, kind, items.last(), index, scope, pre.slots),
                ));
            },
        }
    }
}

proof fn lemma_header_owned(n: int, base: u32, range: TokenRange, a: SlotsView, b: SlotsView)
    requires
        given(base, a.lets, b.lets),
    ensures
        owned(literal_header(n, base, range), a, b),
{
}

/// A list literal with computed elements has slots of its own.
pub proof fn law_literal_list_is_fresh<L: SubLowering>(
    low: L,
    kind: LiteralKind,
    items: Seq<Node>,
    range: TokenRange,
    scope: Scope<'_>,
    at: SlotsView,
)
    requires
        freshening(low),
    ensures
        fresh(at, literal_list(low, kind, items, range, scope, at)),
{
    let base = at.lets;
    let payload = slot_at(at.lets, 1);
    lemma_element_stores_are_fresh(low, kind, items, payload, range, scope, at.after(2));
    match element_stores(low, kind, items, payload, range, scope, at.after(2)) {
        Err(_) => {},
        Ok(stores) => {
            lemma_header_owned(items.len() as int, base, range, at, stores.slots);
            lemma_payload_owned(base, IrType::I32, payload, range, at, stores.slots);
        },
    }
}

/// A bare range used as a value has slots of its own.
pub proof fn law_range_value_is_fresh<L: SubLowering>(
    low: L,
    path: Seq<TokenKey>,
    args: Seq<CallArg>,
    range: TokenRange,
    scope: Scope<'_>,
    at: SlotsView,
)
    requires
        freshening(low),
    ensures
        fresh_maybe(at, range_value(low, path, args, range, scope, at)),
{
    law_range_list_is_fresh(low, args, range, scope, at);
}

} // verus!

//! Building integer and float lists in scratch memory.
//!
//! A list record is `[len: u32][pad: u32][8-byte elements ..]`; the elements
//! start at the first multiple of eight behind the length.

use vstd::prelude::*;

use crate::ast::{operator_yields_bool, yields_bool, CallArg, Expr, Node, TokenKey, TokenRange};
use crate::chain::{
    bare_range, chain_of, is_range_call, match_bare_range, match_materializable_outer_map,
    range_call, single_map,
};
use crate::error::{unsupported, ErrorView, LoweringError};
use crate::fragment::{
    applied, bind, emit_get, emit_set, fired, let_get, let_set, lower_valued, maybe_outcome,
    outcome, slot, slot_at, valued, Fragment, FragmentView, Scope, Slots, SlotsView, SubLowering,
};
use crate::ir::{
    emit, emit_all, emit_simple, ops_view, sop, IrType, Op, OpView, SimpleOp, TaggedOp,
    TaggedOpView,
};
use crate::range_calls::law_chain_shape;
use crate::range_loop::{
    emit_exit_guard, emit_incr_and_loop, emit_loop, end_value, exit_guard, loop_op, lower_end_value,
    lower_start_value, start_value, step_and_loop,
};
use crate::text::{decimal, decimal_chars, join2, join3};

verus! {

/// Mask that rounds an address down to a multiple of eight.
pub const ALIGN_MASK: i32 = -8;

/// `let[target] = (let[base] + 11) & -8`: the address of the first element of
/// the record at `base`, a slot of type `base_ty`.
pub open spec fn payload_address(
    base: u32,
    base_ty: IrType,
    target: u32,
    range: TokenRange,
) -> Seq<TaggedOpView> {
    seq![
        let_get(base, base_ty, range),
        sop(SimpleOp::ConstI32(11), range),
        sop(SimpleOp::Add(IrType::I32), range),
        sop(SimpleOp::ConstI32(ALIGN_MASK), range),
        sop(SimpleOp::BitAnd(IrType::I32), range),
        let_set(target, IrType::I32, range),
    ]
}

/// Appends [`payload_address`].
pub fn emit_payload_address(
    base: u32,
    base_ty: IrType,
    target: u32,
    range: TokenRange,
    out: &mut Vec<TaggedOp>,
)
    ensures
        ops_view(final(out)@) == ops_view(old(out)@) + payload_address(
            base,
            base_ty,
            target,
            range,
        ),
{
    emit_get(out, base, base_ty, range);
    emit_simple(out, SimpleOp::ConstI32(11), range);
    emit_simple(out, SimpleOp::Add(IrType::I32), range);
    emit_simple(out, SimpleOp::ConstI32(ALIGN_MASK), range);
    emit_simple(out, SimpleOp::BitAnd(IrType::I32), range);
    emit_set(out, target, IrType::I32, range);
    assert(ops_view(out@) =~= ops_view(old(out)@) + payload_address(base, base_ty, target, range));
}

/// `let[payload] + let[i] * 8`, left on the stack.
pub open spec fn element_address(payload: u32, i: u32, range: TokenRange) -> Seq<TaggedOpView> {
    seq![
        let_get(payload, IrType::I32, range),
        let_get(i, IrType::I32, range),
        sop(SimpleOp::ConstI32(8), range),
        sop(SimpleOp::Mul(IrType::I32), range),
        sop(SimpleOp::Add(IrType::I32), range),
    ]
}

/// Appends [`element_address`].
pub fn emit_element_address(payload: u32, i: u32, range: TokenRange, out: &mut Vec<TaggedOp>)
    ensures
        ops_view(final(out)@) == ops_view(old(out)@) + element_address(payload, i, range),
{
    emit_get(out, payload, IrType::I32, range);
    emit_get(out, i, IrType::I32, range);
    emit_simple(out, SimpleOp::ConstI32(8), range);
    emit_simple(out, SimpleOp::Mul(IrType::I32), range);
    emit_simple(out, SimpleOp::Add(IrType::I32), range);
    assert(ops_view(out@) =~= ops_view(old(out)@) + element_address(payload, i, range));
}

/// `let[i] = let[i] + 1` on an `I32` slot.
pub open spec fn bump_i32(i: u32, range: TokenRange) -> Seq<TaggedOpView> {
    seq![
        let_get(i, IrType::I32, range),
        sop(SimpleOp::ConstI32(1), range),
        sop(SimpleOp::Add(IrType::I32), range),
        let_set(i, IrType::I32, range),
    ]
}

/// Appends [`bump_i32`].
pub fn emit_bump_i32(i: u32, range: TokenRange, out: &mut Vec<TaggedOp>)
    ensures
        ops_view(final(out)@) == ops_view(old(out)@) + bump_i32(i, range),
{
    emit_get(out, i, IrType::I32, range);
    emit_simple(out, SimpleOp::ConstI32(1), range);
    emit_simple(out, SimpleOp::Add(IrType::I32), range);
    emit_set(out, i, IrType::I32, range);
    assert(ops_view(out@) =~= ops_view(old(out)@) + bump_i32(i, range));
}

/// `let[elem] = let[elem] + 1` on an `I64` slot, then `br 0`.
pub open spec fn bump_i64_and_loop(elem: u32, range: TokenRange) -> Seq<TaggedOpView> {
    step_and_loop(elem, range)
}

/// The clamp of the span to zero: its positive part, then truncated into the
/// 32-bit `count`.
pub open spec fn clamp_span(span: u32, count: u32, range: TokenRange) -> Seq<TaggedOpView> {
    seq![
        let_get(span, IrType::I64, range),
        sop(SimpleOp::ConstI64(0), range),
        sop(SimpleOp::Gt(IrType::I64), range),
        TaggedOpView {
            op: OpView::If {
                result_ty: IrType::I64,
                then_body: seq![let_get(span, IrType::I64, range)],
                else_body: seq![sop(SimpleOp::ConstI64(0), range)],
            },
            range,
        },
        let_set(count, IrType::I32, range),
    ]
}

fn emit_clamp_span(span: u32, count: u32, range: TokenRange, out: &mut Vec<TaggedOp>)
    ensures
        ops_view(final(out)@) == ops_view(old(out)@) + clamp_span(span, count, range),
{
    emit_get(out, span, IrType::I64, range);
    emit_simple(out, SimpleOp::ConstI64(0), range);
    emit_simple(out, SimpleOp::Gt(IrType::I64), range);
    let mut then_body: Vec<TaggedOp> = Vec::new();
    emit_get(&mut then_body, span, IrType::I64, range);
    assert(ops_view(then_body@) =~= seq![let_get(span, IrType::I64, range)]);
    let mut else_body: Vec<TaggedOp> = Vec::new();
    emit_simple(&mut else_body, SimpleOp::ConstI64(0), range);
    assert(ops_view(else_body@) =~= seq![sop(SimpleOp::ConstI64(0), range)]);
    emit(out, Op::If { result_ty: IrType::I64, then_body, else_body }, range);
    emit_set(out, count, IrType::I32, range);
    assert(ops_view(out@) =~= ops_view(old(out)@) + clamp_span(span, count, range));
}

/// Allocation of `8 + 8 * count` bytes into `base`, and the length header.
pub open spec fn alloc_list(count: u32, base: u32, range: TokenRange) -> Seq<TaggedOpView> {
    seq![
        sop(SimpleOp::ConstI32(8), range),
        let_get(count, IrType::I32, range),
        sop(SimpleOp::ConstI32(8), range),
        sop(SimpleOp::Mul(IrType::I32), range),
        sop(SimpleOp::Add(IrType::I32), range),
        sop(SimpleOp::AllocScratchDyn, range),
        let_set(base, IrType::I32, range),
        let_get(base, IrType::I32, range),
        let_get(count, IrType::I32, range),
        sop(SimpleOp::StoreI32AtAbsolute { offset: 0 }, range),
    ]
}

fn emit_alloc_list(count: u32, base: u32, range: TokenRange, out: &mut Vec<TaggedOp>)
    ensures
        ops_view(final(out)@) == ops_view(old(out)@) + alloc_list(count, base, range),
{
    emit_simple(out, SimpleOp::ConstI32(8), range);
    emit_get(out, count, IrType::I32, range);
    emit_simple(out, SimpleOp::ConstI32(8), range);
    emit_simple(out, SimpleOp::Mul(IrType::I32), range);
    emit_simple(out, SimpleOp::Add(IrType::I32), range);
    emit_simple(out, SimpleOp::AllocScratchDyn, range);
    emit_set(out, base, IrType::I32, range);
    emit_get(out, base, IrType::I32, range);
    emit_get(out, count, IrType::I32, range);
    emit_simple(out, SimpleOp::StoreI32AtAbsolute { offset: 0 }, range);
    assert(ops_view(out@) =~= ops_view(old(out)@) + alloc_list(count, base, range));
}

/// `i = 0` and `elem = start`.
pub open spec fn init_cursor(start: u32, i: u32, elem: u32, range: TokenRange) -> Seq<
    TaggedOpView,
> {
    seq![
        sop(SimpleOp::ConstI32(0), range),
        let_set(i, IrType::I32, range),
        let_get(start, IrType::I64, range),
        let_set(elem, IrType::I64, range),
    ]
}

fn emit_init_cursor(start: u32, i: u32, elem: u32, range: TokenRange, out: &mut Vec<TaggedOp>)
    ensures
        ops_view(final(out)@) == ops_view(old(out)@) + init_cursor(start, i, elem, range),
{
    emit_simple(out, SimpleOp::ConstI32(0), range);
    emit_set(out, i, IrType::I32, range);
    emit_get(out, start, IrType::I64, range);
    emit_set(out, elem, IrType::I64, range);
    assert(ops_view(out@) =~= ops_view(old(out)@) + init_cursor(start, i, elem, range));
}

/// Everything before the fill loop. The slots `base ..` hold, in order, the
/// start, the span, the count, the record, the payload address, the index and
/// the running element.
pub open spec fn list_prologue<L: SubLowering>(
    low: L,
    args: Seq<CallArg>,
    range: TokenRange,
    scope: Scope<'_>,
    base: u32,
    at: SlotsView,
) -> Result<FragmentView, ErrorView> {
    let start = base;
    let span = slot_at(base, 1);
    let count = slot_at(base, 2);
    let record = slot_at(base, 3);
    let payload = slot_at(base, 4);
    let i = slot_at(base, 5);
    let elem = slot_at(base, 6);
    match start_value(low, args, range, scope, at) {
        Err(e) => Err(e),
        Ok(lo) => match end_value(low, args, range, scope, lo.slots) {
            Err(e) => Err(e),
            Ok(hi) => Ok(
                FragmentView {
                    ops: (lo.ops.push(let_set(start, IrType::I64, range)) + hi.ops).push(
                        let_get(start, IrType::I64, range),
                    ).push(sop(SimpleOp::Sub(IrType::I64), range)).push(
                        let_set(span, IrType::I64, range),
                    ) + clamp_span(span, count, range) + alloc_list(count, record, range)
                        + payload_address(record, IrType::I32, payload, range) + init_cursor(
                        start,
                        i,
                        elem,
                        range,
                    ),
                    ty: None,
                    slots: hi.slots,
                },
            ),
        },
    }
}

fn emit_list_prologue<L: SubLowering>(
    low: &L,
    args: &Vec<CallArg>,
    range: TokenRange,
    scope: &Scope<'_>,
    base: u32,
    at: &Slots,
) -> (r: Result<Fragment, LoweringError>)
    requires
        args@.len() >= 1,
    ensures
        outcome(r) == list_prologue(*low, args@, range, *scope, base, at@),
{
    let start_i: u32 = base;
    let span_i: u32 = slot(base, 1);
    let count_i: u32 = slot(base, 2);
    let base_i: u32 = slot(base, 3);
    let payload_i: u32 = slot(base, 4);
    let i_i: u32 = slot(base, 5);
    let elem_i: u32 = slot(base, 6);
    let lo = match lower_start_value(low, args, range, scope, at) {
        Err(e) => {
            return Err(e);
        },
        Ok(f) => f,
    };
    let hi = match lower_end_value(low, args, range, scope, &lo.slots) {
        Err(e) => {
            return Err(e);
        },
        Ok(f) => f,
    };
    let slots: Slots = hi.slots;
    let mut out = lo.ops;
    emit_set(&mut out, start_i, IrType::I64, range);
    emit_all(&mut out, hi.ops);
    emit_get(&mut out, start_i, IrType::I64, range);
    emit_simple(&mut out, SimpleOp::Sub(IrType::I64), range);
    emit_set(&mut out, span_i, IrType::I64, range);
    emit_clamp_span(span_i, count_i, range, &mut out);
    emit_alloc_list(count_i, base_i, range, &mut out);
    emit_payload_address(base_i, IrType::I32, payload_i, range, &mut out);
    emit_init_cursor(start_i, i_i, elem_i, range, &mut out);
    Ok(Fragment { ops: out, ty: None, slots })
}

/// The end of a fill-loop iteration: the value in `val` is stored at the
/// current element and index and running element advance.
pub open spec fn store_and_advance(
    payload: u32,
    i: u32,
    elem: u32,
    val: u32,
    range: TokenRange,
) -> Seq<TaggedOpView> {
    element_address(payload, i, range).push(let_get(val, IrType::I64, range)).push(
        sop(SimpleOp::StoreI64AtAbsolute { offset: 0 }, range),
    ) + bump_i32(i, range) + bump_i64_and_loop(elem, range)
}

fn emit_store_and_advance(
    payload: u32,
    i: u32,
    elem: u32,
    val: u32,
    range: TokenRange,
    out: &mut Vec<TaggedOp>,
)
    ensures
        ops_view(final(out)@) == ops_view(old(out)@) + store_and_advance(
            payload,
            i,
            elem,
            val,
            range,
        ),
{
    emit_element_address(payload, i, range, out);
    emit_get(out, val, IrType::I64, range);
    emit_simple(out, SimpleOp::StoreI64AtAbsolute { offset: 0 }, range);
    emit_bump_i32(i, range, out);
    emit_incr_and_loop(elem, range, out);
    assert(ops_view(out@) =~= ops_view(old(out)@) + store_and_advance(payload, i, elem, val, range));
}

/// The fragment that builds `range(..)` as a list of integers.
pub open spec fn range_list<L: SubLowering>(
    low: L,
    args: Seq<CallArg>,
    range: TokenRange,
    scope: Scope<'_>,
    at: SlotsView,
) -> Result<FragmentView, ErrorView> {
    let base = at.lets;
    let elem = slot_at(base, 6);
    match list_prologue(low, args, range, scope, base, at.after(7)) {
        Err(e) => Err(e),
        Ok(pre) => Ok(
            FragmentView {
                ops: pre.ops.push(
                    loop_op(
                        exit_guard(slot_at(base, 5), slot_at(base, 2), IrType::I32, 1, range)
                            + store_and_advance(
                            slot_at(base, 4),
                            slot_at(base, 5),
                            elem,
                            elem,
                            range,
                        ),
                        range,
                    ),
                ).push(let_get(slot_at(base, 3), IrType::I32, range)),
                ty: Some(IrType::ListInt),
                slots: pre.slots,
            },
        ),
    }
}

/// Builds `range(..)` as a list of integers; an empty or reversed range gives
/// the empty list.
pub fn emit_range_materialize<L: SubLowering>(
    range_args: &Vec<CallArg>,
    range: TokenRange,
    scope: &Scope<'_>,
    at: &Slots,
    low: &L,
) -> (r: Result<Fragment, LoweringError>)
    requires
        range_args@.len() >= 1,
    ensures
        outcome(r) == range_list(*low, range_args@, range, *scope, at@),
{
    let base: u32 = at.lets;
    let elem_i: u32 = slot(base, 6);
    let pre = match emit_list_prologue(low, range_args, range, scope, base, &at.reserve(7)) {
        Err(e) => {
            return Err(e);
        },
        Ok(f) => f,
    };
    let mut body: Vec<TaggedOp> = Vec::new();
    emit_exit_guard(slot(base, 5), slot(base, 2), IrType::I32, 1, range, &mut body);
    assert(ops_view(body@) =~= exit_guard(
        slot_at(base, 5),
        slot_at(base, 2),
        IrType::I32,
        1,
        range,
    ));
    emit_store_and_advance(slot(base, 4), slot(base, 5), elem_i, elem_i, range, &mut body);
    let slots: Slots = pre.slots;
    let mut out = pre.ops;
    emit_loop(body, range, &mut out);
    emit_get(&mut out, slot(base, 3), IrType::I32, range);
    Ok(Fragment { ops: out, ty: Some(IrType::ListInt), slots })
}

/// The lowering of a bare `range(..)` call used as a value.
pub open spec fn range_value<L: SubLowering>(
    low: L,
    path: Seq<TokenKey>,
    args: Seq<CallArg>,
    range: TokenRange,
    scope: Scope<'_>,
    at: SlotsView,
) -> Result<Option<FragmentView>, ErrorView> {
    if range_call(path, args) {
        fired(range_list(low, args, range, scope, at))
    } else {
        Ok(None)
    }
}

/// Lowers a bare `range(..)` call to a materialised list.
pub fn try_lower_range_value<L: SubLowering>(
    path: &Vec<TokenKey>,
    args: &Vec<CallArg>,
    range: TokenRange,
    scope: &Scope<'_>,
    at: &Slots,
    low: &L,
) -> (r: Result<Option<Fragment>, LoweringError>)
    ensures
        maybe_outcome(r) == range_value(*low, path@, args@, range, *scope, at@),
{
    if !is_range_call(path, args) {
        return Ok(None);
    }
    applied(emit_range_materialize(args, range, scope, at, low))
}

/// The body of the closure of a single `map` pipeline.
pub open spec fn map_body<'a>(expr: Expr) -> &'a Node {
    let (_, _, body) = single_map(&expr)->0;
    body
}

/// The body of a single `map` pipeline is a proper part of it.
pub proof fn lemma_map_body_smaller(expr: Expr)
    requires
        single_map(&expr) is Some,
    ensures
        decreases_to!(expr => *map_body(expr).expr),
{
    match expr {
        Expr::FnCall { path, args } => {
            assert(path@.len() == 2);
            assert(chain_of(&expr)->0.stages.last().closure_body
                == chain_of(&expr)->0.stages[0].closure_body);
            match *args@[0].value.expr {
                Expr::Closure { params, body, .. } => {
                    assert(map_body(expr) == body);
                    assert(decreases_to!(expr => args));
                    assert(decreases_to!(args => args@));
                    assert(decreases_to!(args@ => args@[0]));
                    assert(decreases_to!(args@[0] => args@[0].value));
                    assert(decreases_to!(args@[0].value => args@[0].value.expr));
                    assert(decreases_to!(*args@[0].value.expr => body));
                    assert(decreases_to!(body => body.expr));
                },
                _ => {},
            }
        },
        _ => {},
    }
}

/// The expression builds a list that can be materialised.
pub open spec fn is_list_value(expr: Expr) -> bool {
    bare_range(&expr) is Some || single_map(&expr) is Some
}

/// The value of one cell, which must be an integer.
pub open spec fn cell_value<L: SubLowering>(
    low: L,
    body: Node,
    scope: Scope<'_>,
    at: SlotsView,
) -> Result<FragmentView, ErrorView> {
    match valued(
        low.lowered(body, scope, at),
        "where-bound list materialise: map body produced no value"@,
        body.range,
    ) {
        Err(e) => Err(e),
        Ok(f) => if f.ty == Some(IrType::I64) {
            Ok(f)
        } else {
            Err(
                ErrorView::UnsupportedExpr {
                    kind:
                        "where-bound list materialise: map body must be Int- or list-valued, got "@
                        + f.ty->0.tag(),
                    range: body.range,
                },
            )
        },
    }
}

fn lower_cell_value<L: SubLowering>(
    low: &L,
    body: &Node,
    scope: &Scope<'_>,
    at: &Slots,
) -> (r: Result<Fragment, LoweringError>)
    ensures
        outcome(r) == cell_value(*low, *body, *scope, at@),
{
    match lower_valued(
        low,
        body,
        "where-bound list materialise: map body produced no value",
        scope,
        at,
    ) {
        Err(e) => Err(e),
        Ok((f, ty)) => match ty {
            IrType::I64 => Ok(f),
            other => Err(
                LoweringError::UnsupportedExpr {
                    kind: join2(
                        "where-bound list materialise: map body must be Int- or list-valued, got ",
                        other.name(),
                    ),
                    range: body.range,
                },
            ),
        },
    }
}

/// The fragment of a mapped list, given its prologue and the value of one
/// element.
pub open spec fn mapped_list(
    pre: FragmentView,
    value: FragmentView,
    base: u32,
    range: TokenRange,
) -> FragmentView {
    let param = pre.slots.lets;
    let elem = slot_at(base, 6);
    let val = slot_at(base, 7);
    FragmentView {
        ops: pre.ops.push(
            loop_op(
                (exit_guard(slot_at(base, 5), slot_at(base, 2), IrType::I32, 1, range).push(
                    let_get(elem, IrType::I64, range),
                ).push(let_set(param, IrType::I64, range)) + value.ops).push(
                    let_set(val, IrType::I64, range),
                ) + store_and_advance(slot_at(base, 4), slot_at(base, 5), elem, val, range),
                range,
            ),
        ).push(let_get(slot_at(base, 3), IrType::I32, range)),
        ty: Some(IrType::ListInt),
        slots: value.slots,
    }
}

/// The fragment that builds a where-bound list: a bare range, or a single
/// `map` over a range whose body is a cell or again such a list. Rows of a
/// nested list are stored as record handles widened to element size.
pub open spec fn list_value<L: SubLowering>(
    low: L,
    expr: Expr,
    range: TokenRange,
    scope: Scope<'_>,
    at: SlotsView,
) -> Result<FragmentView, ErrorView>
    decreases expr,
{
    match bare_range(&expr) {
        Some(args) => range_list(low, args@, range, scope, at),
        None => match single_map(&expr) {
            None => Err(
                ErrorView::UnsupportedExpr {
                    kind:
                        "where-bound list value is neither a bare range nor a range().map((p) => ...)"@,
                    range,
                },
            ),
            Some((args, param, body)) => {
                proof {
                    lemma_map_body_smaller(expr);
                }
                let base = at.lets;
                match list_prologue(low, args@, range, scope, base, at.after(8)) {
                    Err(e) => Err(e),
                    Ok(pre) => {
                        let inner = scope.with(param.name, pre.slots.lets, IrType::I64);
                        let value = if is_list_value(*body.expr) {
                            list_value(low, *body.expr, body.range, inner, pre.slots.after(1))
                        } else {
                            cell_value(low, *body, inner, pre.slots.after(1))
                        };
                        match value {
                            Err(e) => Err(e),
                            Ok(v) => Ok(mapped_list(pre, v, base, range)),
                        }
                    },
                }
            },
        },
    }
}

/// Builds a where-bound list value.
pub fn emit_list_value_materialize<L: SubLowering>(
    value_expr: &Expr,
    range: TokenRange,
    scope: &Scope<'_>,
    at: &Slots,
    low: &L,
) -> (r: Result<Fragment, LoweringError>)
    ensures
        outcome(r) == list_value(*low, *value_expr, range, *scope, at@),
    decreases value_expr,
{
    proof {
        law_chain_shape(*value_expr);
    }
    match match_bare_range(value_expr) {
        Some(range_args) => {
            return emit_range_materialize(range_args, range, scope, at, low);
        },
        None => {},
    }
    let (range_args, param, body) = match match_materializable_outer_map(value_expr) {
        Some(m) => m,
        None => {
            return Err(
                unsupported(
                    "where-bound list value is neither a bare range nor a range().map((p) => ...)",
                    range,
                ),
            );
        },
    };
    let base: u32 = at.lets;
    let elem_i: u32 = slot(base, 6);
    let val_i: u32 = slot(base, 7);
    let pre = match emit_list_prologue(low, range_args, range, scope, base, &at.reserve(8)) {
        Err(e) => {
            return Err(e);
        },
        Ok(f) => f,
    };
    let param_let: u32 = pre.slots.lets;
    let inner = bind(scope, &param.name, param_let, IrType::I64);
    let inner_at: Slots = pre.slots.reserve(1);
    proof {
        lemma_map_body_smaller(*value_expr);
    }
    let inner_is_list: bool = match_bare_range(&*body.expr).is_some()
        || match_materializable_outer_map(&*body.expr).is_some();
    let lowered = if inner_is_list {
        emit_list_value_materialize(&*body.expr, body.range, &inner, &inner_at, low)
    } else {
        lower_cell_value(low, body, &inner, &inner_at)
    };
    let value = match lowered {
        Err(e) => {
            return Err(e);
        },
        Ok(f) => f,
    };
    let slots: Slots = value.slots;
    let mut loop_body: Vec<TaggedOp> = Vec::new();
    emit_exit_guard(slot(base, 5), slot(base, 2), IrType::I32, 1, range, &mut loop_body);
    assert(ops_view(loop_body@) =~= exit_guard(
        slot_at(base, 5),
        slot_at(base, 2),
        IrType::I32,
        1,
        range,
    ));
    emit_get(&mut loop_body, elem_i, IrType::I64, range);
    emit_set(&mut loop_body, param_let, IrType::I64, range);
    emit_all(&mut loop_body, value.ops);
    emit_set(&mut loop_body, val_i, IrType::I64, range);
    emit_store_and_advance(slot(base, 4), slot(base, 5), elem_i, val_i, range, &mut loop_body);
    let mut out = pre.ops;
    emit_loop(loop_body, range, &mut out);
    emit_get(&mut out, slot(base, 3), IrType::I32, range);
    Ok(Fragment { ops: out, ty: Some(IrType::ListInt), slots })
}

// ---------------------------------------------------------------------------
// Literals with computed elements.
// ---------------------------------------------------------------------------

/// The element type of a computed list literal.
#[derive(Clone, Copy, Debug, PartialEq, Eq, Structural)]
pub enum LiteralKind {
    Int,
    Float,
}

impl LiteralKind {
    /// The element type as written in source.
    pub open spec fn text(self) -> Seq<char> {
        match self {
            LiteralKind::Int => "Int"@,
            LiteralKind::Float => "Float"@,
        }
    }

    /// Executable form of [`LiteralKind::text`].
    pub fn name(self) -> (r: &'static str)
        ensures
            r@ == self.text(),
    {
        match self {
            LiteralKind::Int => "Int",
            LiteralKind::Float => "Float",
        }
    }

    /// The instruction that stores an element.
    pub open spec fn store(self) -> SimpleOp {
        match self {
            LiteralKind::Int => SimpleOp::StoreI64AtAbsolute { offset: 0 },
            LiteralKind::Float => SimpleOp::StoreF64AtAbsolute { offset: 0 },
        }
    }

    /// The type of the finished list.
    pub open spec fn list_ty(self) -> IrType {
        match self {
            LiteralKind::Int => IrType::ListInt,
            LiteralKind::Float => IrType::ListFloat,
        }
    }
}

/// The value of one element, converted to the element type where an integer
/// stands in a float list.
pub open spec fn element_value<L: SubLowering>(
    low: L,
    kind: LiteralKind,
    item: Node,
    index: nat,
    scope: Scope<'_>,
    at: SlotsView,
) -> Result<FragmentView, ErrorView> {
    match valued(
        low.lowered(item, scope, at),
        "List<"@ + kind.text() + ">(element produced no value)"@,
        item.range,
    ) {
        Err(e) => Err(e),
        Ok(f) => match (kind, f.ty->0) {
            (LiteralKind::Int, IrType::I64) | (LiteralKind::Float, IrType::F64) => Ok(f),
            (LiteralKind::Float, IrType::I64) => Ok(
                FragmentView {
                    ops: f.ops.push(sop(SimpleOp::ConvertI64ToF64, item.range)),
                    ty: Some(IrType::F64),
                    slots: f.slots,
                },
            ),
            _ => Err(
                ErrorView::UnsupportedExpr {
                    kind: "List<"@ + kind.text() + ">(element #"@ + decimal_chars(index)
                        + " lowered to "@ + f.ty->0.tag() + ", expected "@ + kind.text() + ")"@,
                    range: item.range,
                },
            ),
        },
    }
}

fn lower_element_value<L: SubLowering>(
    low: &L,
    kind: LiteralKind,
    item: &Node,
    index: usize,
    scope: &Scope<'_>,
    at: &Slots,
) -> (r: Result<Fragment, LoweringError>)
    ensures
        outcome(r) == element_value(*low, kind, *item, index as nat, *scope, at@),
{
    let missing: String = join3("List<", kind.name(), ">(element produced no value)");
    let (f, ty) = match lower_valued(low, item, missing.as_str(), scope, at) {
        Err(e) => {
            return Err(e);
        },
        Ok(v) => v,
    };
    match (kind, ty) {
        (LiteralKind::Int, IrType::I64) | (LiteralKind::Float, IrType::F64) => Ok(f),
        (LiteralKind::Float, IrType::I64) => {
            let Fragment { ops, slots, .. } = f;
            let mut converted = ops;
            emit_simple(&mut converted, SimpleOp::ConvertI64ToF64, item.range);
            Ok(Fragment { ops: converted, ty: Some(IrType::F64), slots })
        },
        (_, other) => {
            let position: String = decimal(index);
            let head: String = join3("List<", kind.name(), ">(element #");
            let text: String = head.concat(position.as_str()).concat(" lowered to ").concat(
                other.name(),
            ).concat(", expected ").concat(kind.name()).concat(")");
            Err(LoweringError::UnsupportedExpr { kind: text, range: item.range })
        },
    }
}

/// The stores of the first `items.len()` elements, each at its offset from
/// the address in `payload`.
pub open spec fn element_stores<L: SubLowering>(
    low: L,
    kind: LiteralKind,
    items: Seq<Node>,
    payload: u32,
    range: TokenRange,
    scope: Scope<'_>,
    at: SlotsView,
) -> Result<FragmentView, ErrorView>
    decreases items.len(),
{
    if items.len() == 0 {
        Ok(FragmentView { ops: Seq::empty(), ty: None, slots: at })
    } else {
        let index = (items.len() - 1) as nat;
        match element_stores(low, kind, items.drop_last(), payload, range, scope, at) {
            Err(e) => Err(e),
            Ok(pre) => match element_value(low, kind, items.last(), index, scope, pre.slots) {
                Err(e) => Err(e),
                Ok(v) => Ok(
                    FragmentView {
                        ops: (pre.ops.push(let_get(payload, IrType::I32, range)).push(
                            sop(SimpleOp::ConstI32((8 * index) as i32), range),
                        ).push(sop(SimpleOp::Add(IrType::I32), range)) + v.ops).push(
                            sop(kind.store(), range),
                        ),
                        ty: None,
                        slots: v.slots,
                    },
                ),
            },
        }
    }
}

/// A failing prefix of the elements fails the whole.
proof fn lemma_stores_prefix_error<L: SubLowering>(
    low: L,
    kind: LiteralKind,
    items: Seq<Node>,
    k: int,
    payload: u32,
    range: TokenRange,
    scope: Scope<'_>,
    at: SlotsView,
)
    requires
        0 <= k <= items.len(),
        element_stores(low, kind, items.take(k), payload, range, scope, at) is Err,
    ensures
        element_stores(low, kind, items, payload, range, scope, at) == element_stores(
            low,
            kind,
            items.take(k),
            payload,
            range,
            scope,
            at,
        ),
    decreases items.len(),
{
    if k == items.len() {
        assert(items.take(k) =~= items);
    } else {
        assert(items.drop_last().take(k) =~= items.take(k));
        lemma_stores_prefix_error(low, kind, items.drop_last(), k, payload, range, scope, at);
    }
}

/// The header of a literal of `n` elements.
pub open spec fn literal_header(n: int, base: u32, range: TokenRange) -> Seq<TaggedOpView> {
    seq![
        sop(SimpleOp::ConstI32((8 + 8 * n) as i32), range),
        sop(SimpleOp::AllocScratchDyn, range),
        let_set(base, IrType::I32, range),
        let_get(base, IrType::I32, range),
        sop(SimpleOp::ConstI32(n as i32), range),
        sop(SimpleOp::StoreI32AtAbsolute { offset: 0 }, range),
    ]
}

/// The fragment of a computed list literal: the record is allocated at its
/// known size and every element is stored in turn.
pub open spec fn literal_list<L: SubLowering>(
    low: L,
    kind: LiteralKind,
    items: Seq<Node>,
    range: TokenRange,
    scope: Scope<'_>,
    at: SlotsView,
) -> Result<FragmentView, ErrorView> {
    let base = at.lets;
    let payload = slot_at(at.lets, 1);
    if items.len() > i32::MAX {
        Err(
            ErrorView::UnsupportedExpr {
                kind: "List<"@ + kind.text() + ">(literal too long for i32 count)"@,
                range,
            },
        )
    } else {
        match element_stores(low, kind, items, payload, range, scope, at.after(2)) {
            Err(e) => Err(e),
            Ok(stores) => Ok(
                FragmentView {
                    ops: (literal_header(items.len() as int, base, range) + payload_address(
                        base,
                        IrType::I32,
                        payload,
                        range,
                    ) + stores.ops).push(let_get(base, IrType::I32, range)),
                    ty: Some(kind.list_ty()),
                    slots: stores.slots,
                },
            ),
        }
    }
}

/// The record of a literal of `n` elements has a size that fits its 32-bit
/// allocation operand, or the literal is rejected for its length.
pub open spec fn literal_fits(n: nat) -> bool {
    8 + 8 * n <= i32::MAX || n > i32::MAX
}

fn emit_list_literal<L: SubLowering>(
    kind: LiteralKind,
    items: &Vec<Node>,
    range: TokenRange,
    scope: &Scope<'_>,
    at: &Slots,
    low: &L,
) -> (r: Result<Fragment, LoweringError>)
    requires
        literal_fits(items@.len()),
    ensures
        outcome(r) == literal_list(*low, kind, items@, range, *scope, at@),
{
    let n: usize = items.len();
    if n > 0x7fff_ffff {
        let text: String = join3("List<", kind.name(), ">(literal too long for i32 count)");
        return Err(LoweringError::UnsupportedExpr { kind: text, range });
    }
    let count: i32 = n as i32;
    let base_i: u32 = at.lets;
    let payload_i: u32 = slot(at.lets, 1);
    let mut out: Vec<TaggedOp> = Vec::new();
    emit_simple(&mut out, SimpleOp::ConstI32(8 + 8 * count), range);
    emit_simple(&mut out, SimpleOp::AllocScratchDyn, range);
    emit_set(&mut out, base_i, IrType::I32, range);
    emit_get(&mut out, base_i, IrType::I32, range);
    emit_simple(&mut out, SimpleOp::ConstI32(count), range);
    emit_simple(&mut out, SimpleOp::StoreI32AtAbsolute { offset: 0 }, range);
    assert(ops_view(out@) =~= literal_header(n as int, base_i, range));
    emit_payload_address(base_i, IrType::I32, payload_i, range, &mut out);
    let ghost head = ops_view(out@);

    let mut slots: Slots = at.reserve(2);
    let mut stores: Vec<TaggedOp> = Vec::new();
    let mut i: usize = 0;
    assert(items@.take(0) =~= Seq::empty());
    while i < n
        invariant
            i <= n,
            n == items@.len(),
            8 + 8 * n <= i32::MAX,
            payload_i == slot_at(at.lets, 1),
            element_stores(
                *low,
                kind,
                items@.take(i as int),
                payload_i,
                range,
                *scope,
                at@.after(2),
            ) == Ok::<FragmentView, ErrorView>(
                FragmentView { ops: ops_view(stores@), ty: None, slots: slots@ },
            ),
        decreases n - i,
    {
        assert(items@.take(i + 1).drop_last() =~= items@.take(i as int));
        assert(items@.take(i + 1).last() == items@[i as int]);
        let value = match lower_element_value(low, kind, &items[i], i, scope, &slots) {
            Err(e) => {
                proof {
                    lemma_stores_prefix_error(
                        *low,
                        kind,
                        items@,
                        i + 1,
                        payload_i,
                        range,
                        *scope,
                        at@.after(2),
                    );
                }
                return Err(e);
            },
            Ok(f) => f,
        };
        emit_get(&mut stores, payload_i, IrType::I32, range);
        emit_simple(&mut stores, SimpleOp::ConstI32(8 * (i as i32)), range);
        emit_simple(&mut stores, SimpleOp::Add(IrType::I32), range);
        slots = value.slots;
        emit_all(&mut stores, value.ops);
        match kind {
            LiteralKind::Int => emit_simple(
                &mut stores,
                SimpleOp::StoreI64AtAbsolute { offset: 0 },
                range,
            ),
            LiteralKind::Float => emit_simple(
                &mut stores,
                SimpleOp::StoreF64AtAbsolute { offset: 0 },
                range,
            ),
        }
        i += 1;
    }
    assert(items@.take(n as int) =~= items@);
    emit_all(&mut out, stores);
    emit_get(&mut out, base_i, IrType::I32, range);
    let ty = match kind {
        LiteralKind::Int => IrType::ListInt,
        LiteralKind::Float => IrType::ListFloat,
    };
    Ok(Fragment { ops: out, ty: Some(ty), slots })
}

/// Builds a float list literal with computed elements.
pub fn emit_list_float_literal_materialize<L: SubLowering>(
    items: &Vec<Node>,
    range: TokenRange,
    scope: &Scope<'_>,
    at: &Slots,
    low: &L,
) -> (r: Result<Fragment, LoweringError>)
    requires
        literal_fits(items@.len()),
    ensures
        outcome(r) == literal_list(*low, LiteralKind::Float, items@, range, *scope, at@),
{
    emit_list_literal(LiteralKind::Float, items, range, scope, at, low)
}

/// Builds an integer list literal with computed elements.
pub fn emit_list_int_literal_materialize<L: SubLowering>(
    items: &Vec<Node>,
    range: TokenRange,
    scope: &Scope<'_>,
    at: &Slots,
    low: &L,
) -> (r: Result<Fragment, LoweringError>)
    requires
        literal_fits(items@.len()),
    ensures
        outcome(r) == literal_list(*low, LiteralKind::Int, items@, range, *scope, at@),
{
    emit_list_literal(LiteralKind::Int, items, range, scope, at, low)
}

/// The expression is a literal that can be interned as it is.
pub open spec fn is_plain_literal(expr: Expr) -> bool {
    expr is Float || expr is Int || expr is String || expr is Bool
}

/// Some element of the list literal is not a plain literal.
pub fn list_has_computed_element(items: &Vec<Node>) -> (r: bool)
    ensures
        r == (exists|i: int| 0 <= i < items@.len() && !is_plain_literal(*(#[trigger] items@[i]).expr)),
{
    let mut i: usize = 0;
    while i < items.len()
        invariant
            i <= items.len(),
            forall|k: int| 0 <= k < i ==> is_plain_literal(*(#[trigger] items@[k]).expr),
        decreases items.len() - i,
    {
        match &*items[i].expr {
            Expr::Float(_) | Expr::Int(_) | Expr::String(_) | Expr::Bool(_) => {},
            _ => {
                assert(!is_plain_literal(*items@[i as int].expr));
                return true;
            },
        }
        i += 1;
    }
    false
}

/// The expression is built from a float literal by arithmetic and ternaries.
pub open spec fn looks_float(expr: Expr) -> bool
    decreases expr,
{
    match expr {
        Expr::Float(_) => true,
        Expr::Binary(op, l, r) => !yields_bool(op) && (looks_float(*l.expr) || looks_float(
            *r.expr,
        )),
        Expr::Unary(_, n) => looks_float(*n.expr),
        Expr::Ternary { then, els, .. } => looks_float(*then.expr) || looks_float(*els.expr),
        _ => false,
    }
}

/// Executable form of [`looks_float`].
pub fn expr_looks_float_valued(expr: &Expr) -> (r: bool)
    ensures
        r == looks_float(*expr),
    decreases expr,
{
    match expr {
        Expr::Float(_) => true,
        Expr::Binary(op, l, r) => !operator_yields_bool(*op) && (expr_looks_float_valued(&*l.expr)
            || expr_looks_float_valued(&*r.expr)),
        Expr::Unary(_, n) => expr_looks_float_valued(&*n.expr),
        Expr::Ternary { then, els, .. } => expr_looks_float_valued(&*then.expr)
            || expr_looks_float_valued(&*els.expr),
        _ => false,
    }
}

/// The list literal holds a float literal, or its first element looks like a
/// float.
pub open spec fn float_shaped(items: Seq<Node>) -> bool {
    (exists|i: int| 0 <= i < items.len() && *(#[trigger] items[i]).expr is Float) || (items.len()
        > 0 && looks_float(*items[0].expr))
}

/// Executable form of [`float_shaped`].
pub fn list_is_float_shaped(items: &Vec<Node>) -> (r: bool)
    ensures
        r == float_shaped(items@),
{
    let mut i: usize = 0;
    while i < items.len()
        invariant
            i <= items.len(),
            forall|k: int| 0 <= k < i ==> !(*(#[trigger] items@[k]).expr is Float),
        decreases items.len() - i,
    {
        match &*items[i].expr {
            Expr::Float(_) => {
                assert(*items@[i as int].expr is Float);
                return true;
            },
            _ => {},
        }
        i += 1;
    }
    items.len() > 0 && expr_looks_float_valued(&*items[0].expr)
}

/// The type a node lowers to; nothing is emitted and no slot is taken.
pub fn probe_expr_ir_ty<L: SubLowering>(node: &Node, scope: &Scope<'_>, at: &Slots, low: &L) -> (r:
    Result<IrType, LoweringError>)
    ensures
        match valued(
            low.lowered(*node, *scope, at@),
            "List(computed element produced no value during type probe)"@,
            node.range,
        ) {
            Ok(f) => r matches Ok(ty) && f.ty == Some(ty),
            Err(e) => r matches Err(e2) && e2@ == e,
        },
{
    match lower_valued(
        low,
        node,
        "List(computed element produced no value during type probe)",
        scope,
        at,
    ) {
        Ok((_, ty)) => Ok(ty),
        Err(e) => Err(e),
    }
}

} // verus!

//! Lists built at run time refer only to what is interned.

use vstd::prelude::*;

use crate::ast::{CallArg, Expr, Node, TokenKey, TokenRange};
use crate::chain::{bare_range, single_map};
use crate::constants::{group_known, keeping, kept, kept_maybe, known, op_known, well_kept};
use crate::fragment::{let_get, let_set, slot_at, FragmentView, Scope, SlotsView, SubLowering};
use crate::ir::{sop, IrType, OpView, SimpleOp, TaggedOpView};
use crate::materialize::{
    cell_value, clamp_span, element_stores, element_value, is_list_value, lemma_map_body_smaller,
    list_prologue, list_value, literal_list, mapped_list, range_list, range_value, LiteralKind,
};
use crate::range_loop::{end_value, start_value};

verus! {

broadcast use group_known;

proof fn lemma_clamp_known(span: u32, count: u32, range: TokenRange, at: SlotsView)
    ensures
        known(clamp_span(span, count, range), at),
{
    let positive = seq![let_get(span, IrType::I64, range)];
    let zero = seq![sop(SimpleOp::ConstI64(0), range)];
    assert(known(positive, at));
    assert(known(zero, at));
    let choice = TaggedOpView {
        op: OpView::If { result_ty: IrType::I64, then_body: positive, else_body: zero },
        range,
    };
    assert(op_known(choice, at));
    assert(clamp_span(span, count, range) =~= Seq::empty().push(
        let_get(span, IrType::I64, range),
    ).push(sop(SimpleOp::ConstI64(0), range)).push(sop(SimpleOp::Gt(IrType::I64), range)).push(
        choice,
    ).push(let_set(count, IrType::I32, range)));
}

proof fn lemma_prologue_keeps<L: SubLowering>(
    low: L,
    args: Seq<CallArg>,
    range: TokenRange,
    scope: Scope<'_>,
    base: u32,
    at: SlotsView,
)
    requires
        keeping(low),
    ensures
        kept(at, list_prologue(low, args, range, scope, base, at)),
{
    let lo = start_value(low, args, range, scope, at);
    assert(kept(at, lo));
    match lo {
        Err(_) => {},
        Ok(lo) => {
            let hi = end_value(low, args, range, scope, lo.slots);
            assert(kept(lo.slots, hi));
            match hi {
                Err(_) => {},
                Ok(hi) => {
                    lemma_clamp_known(slot_at(base, 1), slot_at(base, 2), range, hi.slots);
                },
            }
        },
    }
}

/// A range built as a list refers to what is interned.
pub proof fn law_range_list_keeps<L: SubLowering>(
    low: L,
    args: Seq<CallArg>,
    range: TokenRange,
    scope: Scope<'_>,
    at: SlotsView,
)
    requires
        keeping(low),
    ensures
        kept(at, range_list(low, args, range, scope, at)),
{
    lemma_prologue_keeps(low, args, range, scope, at.lets, at.after(7));
}

proof fn lemma_mapped_list_keeps(
    at: SlotsView,
    pre: FragmentView,
    value: FragmentView,
    base: u32,
    range: TokenRange,
)
    requires
        well_kept(at, pre),
        well_kept(pre.slots.after(1), value),
    ensures
        well_kept(at, mapped_list(pre, value, base, range)),
{
}

/// A mapped range built as a list, to any depth, refers to what is interned.
pub proof fn law_list_value_keeps<L: SubLowering>(
    low: L,
    expr: Expr,
    range: TokenRange,
    scope: Scope<'_>,
    at: SlotsView,
)
    requires
        keeping(low),
    ensures
        kept(at, list_value(low, expr, range, scope, at)),
    decreases expr,
{
    match bare_range(&expr) {
        Some(args) => {
            law_range_list_keeps(low, args@, range, scope, at);
        },
        None => match single_map(&expr) {
            None => {},
            Some((args, param, body)) => {
                lemma_map_body_smaller(expr);
                let base = at.lets;
                lemma_prologue_keeps(low, args@, range, scope, base, at.after(8));
                match list_prologue(low, args@, range, scope, base, at.after(8)) {
                    Err(_) => {},
                    Ok(pre) => {
                        let inner = scope.with(param.name, pre.slots.lets, IrType::I64);
                        if is_list_value(*body.expr) {
                            law_list_value_keeps(
                                low,
                                *body.expr,
                                body.range,
                                inner,
                                pre.slots.after(1),
                            );
                            match list_value(
                                low,
                                *body.expr,
                                body.range,
                                inner,
                                pre.slots.after(1),
                            ) {
                                Err(_) => {},
                                Ok(v) => {
                                    lemma_mapped_list_keeps(at, pre, v, base, range);
                                },
                            }
                        } else {
                            match cell_value(low, *body, inner, pre.slots.after(1)) {
                                Err(_) => {},
                                Ok(v) => {
                                    assert(well_kept(pre.slots.after(1), v));
                                    lemma_mapped_list_keeps(at, pre, v, base, range);
                                },
                            }
                        }
                    },
                }
            },
        },
    }
}

proof fn lemma_element_stores_keep<L: SubLowering>(
    low: L,
    kind: LiteralKind,
    items: Seq<Node>,
    payload: u32,
    range: TokenRange,
    scope: Scope<'_>,
    at: SlotsView,
)
    requires
        keeping(low),
    ensures
        kept(at, element_stores(low, kind, items, payload, range, scope, at)),
    decreases items.len(),
{
    if items.len() > 0 {
        let index = (items.len() - 1) as nat;
        lemma_element_stores_keep(low, kind, items.drop_last(), payload, range, scope, at);
        match element_stores(low, kind, items.drop_last(), payload, range, scope, at) {
            Err(_) => {},
            Ok(pre) => {
                assert(kept(
                    pre.slots,
                    element_value(low, kind, items.last(), index, scope, pre.slots),
                ));
            },
        }
    }
}

/// A list literal with computed elements refers to what is interned.
pub proof fn law_literal_list_keeps<L: SubLowering>(
    low: L,
    kind: LiteralKind,
    items: Seq<Node>,
    range: TokenRange,
    scope: Scope<'_>,
    at: SlotsView,
)
    requires
        keeping(low),
    ensures
        kept(at, literal_list(low, kind, items, range, scope, at)),
{
    lemma_element_stores_keep(low, kind, items, slot_at(at.lets, 1), range, scope, at.after(2));
}

/// A bare range used as a value refers to what is interned.
pub proof fn law_range_value_keeps<L: SubLowering>(
    low: L,
    path: Seq<TokenKey>,
    args: Seq<CallArg>,
    range: TokenRange,
    scope: Scope<'_>,
    at: SlotsView,
)
    requires
        keeping(low),
    ensures
        kept_maybe(at, range_value(low, path, args, range, scope, at)),
{
    law_range_list_keeps(low, args, range, scope, at);
}

} // verus!

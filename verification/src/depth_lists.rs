//! Lists and list calls ask for nothing but their parts.

use vstd::prelude::*;

use crate::ast::{CallArg, ClosureParam, Expr, Node, TokenKey, TokenRange};
use crate::chain::{bare_range, chain_of, single_map, StageMethod};
use crate::comprehension::{
    comprehension, filtered_source, map_pass, pass_tail, variant_comprehension,
};
use crate::depth::{
    agree, alike, args_nest, bounds_nest, flat_nests, keys_nest, lemma_bare_range_nests,
    lemma_chain_nests, lemma_closure_nests, nests, nodes_nest,
};
use crate::depth_ranges::{lemma_end_value_agrees, lemma_start_value_agrees};
use crate::error::ErrorView;
use crate::fragment::{FragmentView, Scope, SlotsView, SubLowering};
use crate::ir::IrType;
use crate::list_calls::{
    bound_list_reduce, closure_probe, float_fold, fold_init, fold_tail, hof_call, hof_method,
    hof_tail, list_filter, list_fold, list_len, list_map, list_operand, list_reduce,
    list_sum_value, map_routines, map_tail, materialized_list_reduce, type_const, FoldKind,
};
use crate::list_literal::{computed_list, list_lowered, SpreadView};
use crate::materialize::{
    cell_value, element_stores, element_value, lemma_map_body_smaller, list_prologue, list_value,
    literal_list, range_list, range_value, LiteralKind,
};
use crate::range_calls::fold_closure;
use crate::stdlib::StdlibTable;
use crate::types::TypeRepr;

verus! {

/// [`list_prologue`] asks for nothing but its parts.
pub broadcast proof fn lemma_list_prologue_agrees<L: SubLowering, H: SubLowering>(
    l: L,
    h: H,
    n: nat,
    args: Seq<CallArg>,
    range: TokenRange,
    scope: Scope<'_>,
    base: u32,
    at: SlotsView,
)
    requires
        #[trigger] agree(l, h, n),
        alike(l, h),
        bounds_nest(n, args),
    ensures
        #[trigger] list_prologue(l, args, range, scope, base, at) == #[trigger] list_prologue(
            h,
            args,
            range,
            scope,
            base,
            at,
        ),
{
    broadcast use {lemma_start_value_agrees, lemma_end_value_agrees};
}

/// [`range_list`] asks for nothing but its parts.
pub broadcast proof fn lemma_range_list_agrees<L: SubLowering, H: SubLowering>(
    l: L,
    h: H,
    n: nat,
    args: Seq<CallArg>,
    range: TokenRange,
    scope: Scope<'_>,
    at: SlotsView,
)
    requires
        #[trigger] agree(l, h, n),
        alike(l, h),
        bounds_nest(n, args),
    ensures
        #[trigger] range_list(l, args, range, scope, at) == #[trigger] range_list(
            h,
            args,
            range,
            scope,
            at,
        ),
{
    broadcast use lemma_list_prologue_agrees;
}

/// [`range_value`] asks for nothing but its parts.
pub broadcast proof fn lemma_range_value_agrees<L: SubLowering, H: SubLowering>(
    l: L,
    h: H,
    n: nat,
    path: Seq<TokenKey>,
    args: Seq<CallArg>,
    range: TokenRange,
    scope: Scope<'_>,
    at: SlotsView,
)
    requires
        #[trigger] agree(l, h, n),
        alike(l, h),
        keys_nest(n, path),
        args_nest(n, args),
    ensures
        #[trigger] range_value(l, path, args, range, scope, at) == #[trigger] range_value(
            h,
            path,
            args,
            range,
            scope,
            at,
        ),
{
    broadcast use lemma_range_list_agrees;
}

/// [`cell_value`] asks for nothing but its parts.
pub broadcast proof fn lemma_cell_value_agrees<L: SubLowering, H: SubLowering>(
    l: L,
    h: H,
    n: nat,
    body: Node,
    scope: Scope<'_>,
    at: SlotsView,
)
    requires
        #[trigger] agree(l, h, n),
        alike(l, h),
        nests(n, *body.expr),
    ensures
        #[trigger] cell_value(l, body, scope, at) == #[trigger] cell_value(h, body, scope, at),
{
}

/// The lowering of a bound list asks another one for nothing but the parts of
/// the list.
pub proof fn law_list_value_asks_only_its_parts<L: SubLowering, H: SubLowering>(
    l: L,
    h: H,
    n: nat,
    expr: Expr,
    range: TokenRange,
    scope: Scope<'_>,
    at: SlotsView,
)
    requires
        agree(l, h, n),
        alike(l, h),
        nests(n, expr),
    ensures
        list_value(l, expr, range, scope, at) == list_value(h, expr, range, scope, at),
    decreases expr,
{
    broadcast use {lemma_cell_value_agrees, lemma_list_prologue_agrees, lemma_range_list_agrees};

    lemma_chain_nests(n, &expr);
    lemma_bare_range_nests(n, &expr);
    if let Some((args, param, body)) = single_map(&expr) {
        let c = chain_of(&expr)->0;
        assert(nests(n, *c.stages[0].closure_body.expr));
        if bare_range(&expr) is None {
            lemma_map_body_smaller(expr);
            let base = at.lets;
            if let Ok(pre) = list_prologue(l, args@, range, scope, base, at.after(8)) {
                let inner = scope.with(param.name, pre.slots.lets, IrType::I64);
                law_list_value_asks_only_its_parts(
                    l,
                    h,
                    n,
                    *body.expr,
                    body.range,
                    inner,
                    pre.slots.after(1),
                );
            }
        }
    }
}

/// [`element_value`] asks for nothing but its parts.
pub broadcast proof fn lemma_element_value_agrees<L: SubLowering, H: SubLowering>(
    l: L,
    h: H,
    n: nat,
    kind: LiteralKind,
    item: Node,
    index: nat,
    scope: Scope<'_>,
    at: SlotsView,
)
    requires
        #[trigger] agree(l, h, n),
        alike(l, h),
        nests(n, *item.expr),
    ensures
        #[trigger] element_value(l, kind, item, index, scope, at) == #[trigger] element_value(
            h,
            kind,
            item,
            index,
            scope,
            at,
        ),
{
}

/// [`element_stores`] asks for nothing but its parts.
pub broadcast proof fn lemma_element_stores_agrees<L: SubLowering, H: SubLowering>(
    l: L,
    h: H,
    n: nat,
    kind: LiteralKind,
    items: Seq<Node>,
    payload: u32,
    range: TokenRange,
    scope: Scope<'_>,
    at: SlotsView,
)
    requires
        #[trigger] agree(l, h, n),
        alike(l, h),
        nodes_nest(n, items),
    ensures
        #[trigger] element_stores(
            l,
            kind,
            items,
            payload,
            range,
            scope,
            at,
        ) == #[trigger] element_stores(
            h,
            kind,
            items,
            payload,
            range,
            scope,
            at,
        ),
    decreases items.len(),
{
    broadcast use lemma_element_value_agrees;

    if items.len() > 0 {
        assert(nodes_nest(n, items.drop_last())) by {
            assert forall|i: int| 0 <= i < items.drop_last().len() implies nests(
                n,
                *(#[trigger] items.drop_last()[i]).expr,
            ) by {
                assert(items[i] == items.drop_last()[i]);
            }
        }
        assert(items.last() == items[items.len() - 1]);
        lemma_element_stores_agrees(l, h, n, kind, items.drop_last(), payload, range, scope, at);
    }
}

/// [`literal_list`] asks for nothing but its parts.
pub broadcast proof fn lemma_literal_list_agrees<L: SubLowering, H: SubLowering>(
    l: L,
    h: H,
    n: nat,
    kind: LiteralKind,
    items: Seq<Node>,
    range: TokenRange,
    scope: Scope<'_>,
    at: SlotsView,
)
    requires
        #[trigger] agree(l, h, n),
        alike(l, h),
        nodes_nest(n, items),
    ensures
        #[trigger] literal_list(l, kind, items, range, scope, at) == #[trigger] literal_list(
            h,
            kind,
            items,
            range,
            scope,
            at,
        ),
{
    broadcast use lemma_element_stores_agrees;
}

/// [`computed_list`] asks for nothing but its parts.
pub broadcast proof fn lemma_computed_list_agrees<L: SubLowering, H: SubLowering>(
    l: L,
    h: H,
    n: nat,
    word: Seq<char>,
    items: Seq<Node>,
    range: TokenRange,
    scope: Scope<'_>,
    at: SlotsView,
)
    requires
        #[trigger] agree(l, h, n),
        alike(l, h),
        nodes_nest(n, items),
        items.len() > 0,
    ensures
        #[trigger] computed_list(l, word, items, range, scope, at) == #[trigger] computed_list(
            h,
            word,
            items,
            range,
            scope,
            at,
        ),
{
    broadcast use lemma_literal_list_agrees;

    assert(nests(n, *items[0].expr));
}

/// [`list_lowered`] asks for nothing but its parts.
pub broadcast proof fn lemma_list_lowered_agrees<L: SubLowering, H: SubLowering>(
    l: L,
    h: H,
    n: nat,
    items: Seq<Node>,
    spread: Option<Result<SpreadView, ErrorView>>,
    range: TokenRange,
    scope: Scope<'_>,
    at: SlotsView,
)
    requires
        #[trigger] agree(l, h, n),
        alike(l, h),
        nodes_nest(n, items),
        flat_nests(n, spread),
    ensures
        #[trigger] list_lowered(l, items, spread, range, scope, at) == #[trigger] list_lowered(
            h,
            items,
            spread,
            range,
            scope,
            at,
        ),
{
    broadcast use lemma_computed_list_agrees;
}

/// [`list_operand`] asks for nothing but its parts.
pub broadcast proof fn lemma_list_operand_agrees<L: SubLowering, H: SubLowering>(
    l: L,
    h: H,
    n: nat,
    node: Node,
    ty: IrType,
    scope: Scope<'_>,
    at: SlotsView,
)
    requires
        #[trigger] agree(l, h, n),
        alike(l, h),
        nests(n, *node.expr),
    ensures
        #[trigger] list_operand(l, node, ty, scope, at) == #[trigger] list_operand(
            h,
            node,
            ty,
            scope,
            at,
        ),
{
}

/// [`list_len`] asks for nothing but its parts.
pub broadcast proof fn lemma_list_len_agrees<L: SubLowering, H: SubLowering>(
    l: L,
    h: H,
    n: nat,
    path: Seq<TokenKey>,
    args: Seq<CallArg>,
    range: TokenRange,
    scope: Scope<'_>,
    at: SlotsView,
)
    requires
        #[trigger] agree(l, h, n),
        alike(l, h),
        keys_nest(n, path),
        args_nest(n, args),
    ensures
        #[trigger] list_len(l, path, args, range, scope, at) == #[trigger] list_len(
            h,
            path,
            args,
            range,
            scope,
            at,
        ),
{
    broadcast use lemma_list_operand_agrees;
}

/// [`list_sum_value`] asks for nothing but its parts.
pub broadcast proof fn lemma_list_sum_value_agrees<L: SubLowering, H: SubLowering>(
    l: L,
    h: H,
    n: nat,
    table: StdlibTable,
    path: Seq<TokenKey>,
    args: Seq<CallArg>,
    range: TokenRange,
    scope: Scope<'_>,
    at: SlotsView,
)
    requires
        #[trigger] agree(l, h, n),
        alike(l, h),
        keys_nest(n, path),
        args_nest(n, args),
    ensures
        #[trigger] list_sum_value(
            l,
            table,
            path,
            args,
            range,
            scope,
            at,
        ) == #[trigger] list_sum_value(
            h,
            table,
            path,
            args,
            range,
            scope,
            at,
        ),
{
    broadcast use lemma_list_operand_agrees;
}

/// [`closure_probe`] asks for nothing but its parts.
pub broadcast proof fn lemma_closure_probe_agrees<L: SubLowering, H: SubLowering>(
    l: L,
    h: H,
    n: nat,
    node: Node,
    param_tys: Seq<IrType>,
    ret_ty: IrType,
    scope: Scope<'_>,
    at: SlotsView,
)
    requires
        #[trigger] agree(l, h, n),
        alike(l, h),
        nests(n, *node.expr),
    ensures
        #[trigger] closure_probe(
            l,
            node,
            param_tys,
            ret_ty,
            scope,
            at,
        ) == #[trigger] closure_probe(
            h,
            node,
            param_tys,
            ret_ty,
            scope,
            at,
        ),
{
}

/// [`map_tail`] asks for nothing but its parts.
pub broadcast proof fn lemma_map_tail_agrees<L: SubLowering, H: SubLowering>(
    l: L,
    h: H,
    n: nat,
    table: StdlibTable,
    elem: IrType,
    from: int,
    closure: Node,
    range: TokenRange,
    scope: Scope<'_>,
    at: SlotsView,
)
    requires
        #[trigger] agree(l, h, n),
        alike(l, h),
        nests(n, *closure.expr),
    ensures
        #[trigger] map_tail(
            l,
            table,
            elem,
            from,
            closure,
            range,
            scope,
            at,
        ) == #[trigger] map_tail(
            h,
            table,
            elem,
            from,
            closure,
            range,
            scope,
            at,
        ),
    decreases map_routines(elem).len() - from,
{
    broadcast use lemma_closure_probe_agrees;

    let routines = map_routines(elem);
    if 0 <= from < routines.len() {
        lemma_map_tail_agrees(l, h, n, table, elem, from + 1, closure, range, scope, at);
    }
}

/// [`hof_tail`] asks for nothing but its parts.
pub broadcast proof fn lemma_hof_tail_agrees<L: SubLowering, H: SubLowering>(
    l: L,
    h: H,
    n: nat,
    table: StdlibTable,
    kind: StageMethod,
    elem: IrType,
    closure: Node,
    range: TokenRange,
    scope: Scope<'_>,
    at: SlotsView,
)
    requires
        #[trigger] agree(l, h, n),
        alike(l, h),
        nests(n, *closure.expr),
    ensures
        #[trigger] hof_tail(
            l,
            table,
            kind,
            elem,
            closure,
            range,
            scope,
            at,
        ) == #[trigger] hof_tail(
            h,
            table,
            kind,
            elem,
            closure,
            range,
            scope,
            at,
        ),
{
    broadcast use lemma_map_tail_agrees;
}

/// [`hof_call`] asks for nothing but its parts.
pub broadcast proof fn lemma_hof_call_agrees<L: SubLowering, H: SubLowering>(
    l: L,
    h: H,
    n: nat,
    table: StdlibTable,
    kind: StageMethod,
    args: Seq<CallArg>,
    range: TokenRange,
    scope: Scope<'_>,
    at: SlotsView,
)
    requires
        #[trigger] agree(l, h, n),
        alike(l, h),
        args_nest(n, args),
        args.len() >= 2,
    ensures
        #[trigger] hof_call(l, table, kind, args, range, scope, at) == #[trigger] hof_call(
            h,
            table,
            kind,
            args,
            range,
            scope,
            at,
        ),
{
    broadcast use lemma_hof_tail_agrees;

    assert(nests(n, *args[0].value.expr) && nests(n, *args[1].value.expr));
}

/// [`hof_method`] asks for nothing but its parts.
pub broadcast proof fn lemma_hof_method_agrees<L: SubLowering, H: SubLowering>(
    l: L,
    h: H,
    n: nat,
    table: StdlibTable,
    kind: StageMethod,
    receiver_ty: IrType,
    closure: Node,
    range: TokenRange,
    scope: Scope<'_>,
    at: SlotsView,
)
    requires
        #[trigger] agree(l, h, n),
        alike(l, h),
        nests(n, *closure.expr),
    ensures
        #[trigger] hof_method(
            l,
            table,
            kind,
            receiver_ty,
            closure,
            range,
            scope,
            at,
        ) == #[trigger] hof_method(
            h,
            table,
            kind,
            receiver_ty,
            closure,
            range,
            scope,
            at,
        ),
{
    broadcast use lemma_hof_tail_agrees;
}

/// [`list_map`] asks for nothing but its parts.
pub broadcast proof fn lemma_list_map_agrees<L: SubLowering, H: SubLowering>(
    l: L,
    h: H,
    n: nat,
    table: StdlibTable,
    path: Seq<TokenKey>,
    args: Seq<CallArg>,
    range: TokenRange,
    scope: Scope<'_>,
    at: SlotsView,
)
    requires
        #[trigger] agree(l, h, n),
        alike(l, h),
        keys_nest(n, path),
        args_nest(n, args),
    ensures
        #[trigger] list_map(l, table, path, args, range, scope, at) == #[trigger] list_map(
            h,
            table,
            path,
            args,
            range,
            scope,
            at,
        ),
{
    broadcast use lemma_hof_call_agrees;
}

/// [`list_filter`] asks for nothing but its parts.
pub broadcast proof fn lemma_list_filter_agrees<L: SubLowering, H: SubLowering>(
    l: L,
    h: H,
    n: nat,
    table: StdlibTable,
    path: Seq<TokenKey>,
    args: Seq<CallArg>,
    range: TokenRange,
    scope: Scope<'_>,
    at: SlotsView,
)
    requires
        #[trigger] agree(l, h, n),
        alike(l, h),
        keys_nest(n, path),
        args_nest(n, args),
    ensures
        #[trigger] list_filter(
            l,
            table,
            path,
            args,
            range,
            scope,
            at,
        ) == #[trigger] list_filter(
            h,
            table,
            path,
            args,
            range,
            scope,
            at,
        ),
{
    broadcast use lemma_hof_call_agrees;
}

/// [`fold_init`] asks for nothing but its parts.
pub broadcast proof fn lemma_fold_init_agrees<L: SubLowering, H: SubLowering>(
    l: L,
    h: H,
    n: nat,
    kind: FoldKind,
    init: Node,
    scope: Scope<'_>,
    at: SlotsView,
)
    requires
        #[trigger] agree(l, h, n),
        alike(l, h),
        nests(n, *init.expr),
    ensures
        #[trigger] fold_init(l, kind, init, scope, at) == #[trigger] fold_init(
            h,
            kind,
            init,
            scope,
            at,
        ),
{
}

/// [`fold_tail`] asks for nothing but its parts.
pub broadcast proof fn lemma_fold_tail_agrees<L: SubLowering, H: SubLowering>(
    l: L,
    h: H,
    n: nat,
    table: StdlibTable,
    kind: FoldKind,
    src: FragmentView,
    args: Seq<CallArg>,
    range: TokenRange,
    scope: Scope<'_>,
)
    requires
        #[trigger] agree(l, h, n),
        alike(l, h),
        args_nest(n, args),
        args.len() >= 3,
    ensures
        #[trigger] fold_tail(
            l,
            table,
            kind,
            src,
            args,
            range,
            scope,
        ) == #[trigger] fold_tail(
            h,
            table,
            kind,
            src,
            args,
            range,
            scope,
        ),
{
    broadcast use lemma_fold_init_agrees;

    assert(nests(n, *args[1].value.expr));
}

/// [`float_fold`] asks for nothing but its parts.
pub broadcast proof fn lemma_float_fold_agrees<L: SubLowering, H: SubLowering>(
    l: L,
    h: H,
    n: nat,
    table: StdlibTable,
    args: Seq<CallArg>,
    range: TokenRange,
    scope: Scope<'_>,
    at: SlotsView,
)
    requires
        #[trigger] agree(l, h, n),
        alike(l, h),
        args_nest(n, args),
        args.len() >= 3,
    ensures
        #[trigger] float_fold(l, table, args, range, scope, at) == #[trigger] float_fold(
            h,
            table,
            args,
            range,
            scope,
            at,
        ),
{
    broadcast use {lemma_list_operand_agrees, lemma_fold_tail_agrees};

    assert(nests(n, *args[0].value.expr));
}

/// [`list_fold`] asks for nothing but its parts.
pub broadcast proof fn lemma_list_fold_agrees<L: SubLowering, H: SubLowering>(
    l: L,
    h: H,
    n: nat,
    table: StdlibTable,
    args: Seq<CallArg>,
    range: TokenRange,
    scope: Scope<'_>,
    at: SlotsView,
)
    requires
        #[trigger] agree(l, h, n),
        alike(l, h),
        args_nest(n, args),
        args.len() >= 3,
    ensures
        #[trigger] list_fold(l, table, args, range, scope, at) == #[trigger] list_fold(
            h,
            table,
            args,
            range,
            scope,
            at,
        ),
{
    broadcast use {lemma_fold_tail_agrees, lemma_float_fold_agrees};

    assert(nests(n, *args[0].value.expr));
}

/// [`list_reduce`] asks for nothing but its parts.
pub broadcast proof fn lemma_list_reduce_agrees<L: SubLowering, H: SubLowering>(
    l: L,
    h: H,
    n: nat,
    table: StdlibTable,
    path: Seq<TokenKey>,
    args: Seq<CallArg>,
    range: TokenRange,
    scope: Scope<'_>,
    at: SlotsView,
)
    requires
        #[trigger] agree(l, h, n),
        alike(l, h),
        keys_nest(n, path),
        args_nest(n, args),
    ensures
        #[trigger] list_reduce(
            l,
            table,
            path,
            args,
            range,
            scope,
            at,
        ) == #[trigger] list_reduce(
            h,
            table,
            path,
            args,
            range,
            scope,
            at,
        ),
{
    broadcast use lemma_list_fold_agrees;
}

/// [`type_const`] asks for nothing but its parts.
pub broadcast proof fn lemma_type_const_agrees<L: SubLowering, H: SubLowering>(
    l: L,
    h: H,
    n: nat,
    path: Seq<TokenKey>,
    args: Seq<CallArg>,
    range: TokenRange,
    scope: Scope<'_>,
    at: SlotsView,
)
    requires
        #[trigger] agree(l, h, n),
        alike(l, h),
        keys_nest(n, path),
        args_nest(n, args),
    ensures
        #[trigger] type_const(l, path, args, range, scope, at) == #[trigger] type_const(
            h,
            path,
            args,
            range,
            scope,
            at,
        ),
{
}

/// [`bound_list_reduce`] asks for nothing but its parts.
pub broadcast proof fn lemma_bound_list_reduce_agrees<L: SubLowering, H: SubLowering>(
    l: L,
    h: H,
    n: nat,
    list: u32,
    init: Node,
    params: Seq<ClosureParam>,
    body: Node,
    range: TokenRange,
    scope: Scope<'_>,
    at: SlotsView,
)
    requires
        #[trigger] agree(l, h, n),
        alike(l, h),
        nests(n, *init.expr),
        nests(n, *body.expr),
    ensures
        #[trigger] bound_list_reduce(
            l,
            list,
            init,
            params,
            body,
            range,
            scope,
            at,
        ) == #[trigger] bound_list_reduce(
            h,
            list,
            init,
            params,
            body,
            range,
            scope,
            at,
        ),
{
}

/// [`materialized_list_reduce`] asks for nothing but its parts.
pub broadcast proof fn lemma_materialized_list_reduce_agrees<L: SubLowering, H: SubLowering>(
    l: L,
    h: H,
    n: nat,
    path: Seq<TokenKey>,
    args: Seq<CallArg>,
    range: TokenRange,
    scope: Scope<'_>,
    at: SlotsView,
)
    requires
        #[trigger] agree(l, h, n),
        alike(l, h),
        keys_nest(n, path),
        args_nest(n, args),
    ensures
        #[trigger] materialized_list_reduce(
            l,
            path,
            args,
            range,
            scope,
            at,
        ) == #[trigger] materialized_list_reduce(
            h,
            path,
            args,
            range,
            scope,
            at,
        ),
{
    broadcast use lemma_bound_list_reduce_agrees;

    if args.len() == 2 {
        assert(nests(n, *args[0].value.expr) && nests(n, *args[1].value.expr));
        if fold_closure(args[1].value) is Some {
            lemma_closure_nests(n, *args[1].value.expr);
        }
    }
}

/// [`pass_tail`] asks for nothing but its parts.
pub broadcast proof fn lemma_pass_tail_agrees<L: SubLowering, H: SubLowering>(
    l: L,
    h: H,
    n: nat,
    table: StdlibTable,
    routine: Seq<char>,
    id: Seq<char>,
    body: Node,
    ret_ty: Option<IrType>,
    expected: Option<TypeRepr>,
    range: TokenRange,
    scope: Scope<'_>,
    at: SlotsView,
)
    requires
        #[trigger] agree(l, h, n),
        alike(l, h),
        nests(n, *body.expr),
    ensures
        #[trigger] pass_tail(
            l,
            table,
            routine,
            id,
            body,
            ret_ty,
            expected,
            range,
            scope,
            at,
        ) == #[trigger] pass_tail(
            h,
            table,
            routine,
            id,
            body,
            ret_ty,
            expected,
            range,
            scope,
            at,
        ),
{
}

/// [`map_pass`] asks for nothing but its parts.
pub broadcast proof fn lemma_map_pass_agrees<L: SubLowering, H: SubLowering>(
    l: L,
    h: H,
    n: nat,
    table: StdlibTable,
    elem: IrType,
    src_ty: Option<IrType>,
    id: Seq<char>,
    body: Node,
    from: int,
    last: Option<ErrorView>,
    range: TokenRange,
    scope: Scope<'_>,
    at: SlotsView,
)
    requires
        #[trigger] agree(l, h, n),
        alike(l, h),
        nests(n, *body.expr),
    ensures
        #[trigger] map_pass(
            l,
            table,
            elem,
            src_ty,
            id,
            body,
            from,
            last,
            range,
            scope,
            at,
        ) == #[trigger] map_pass(
            h,
            table,
            elem,
            src_ty,
            id,
            body,
            from,
            last,
            range,
            scope,
            at,
        ),
    decreases map_routines(elem).len() - from,
{
    broadcast use lemma_pass_tail_agrees;

    let routines = map_routines(elem);
    if 0 <= from < routines.len() {
        let (ret_ty, name) = routines[from];
        lemma_map_pass_agrees(
            l,
            h,
            n,
            table,
            elem,
            src_ty,
            id,
            body,
            from + 1,
            last,
            range,
            scope,
            at,
        );
        if let Err(e) = pass_tail(l, table, name, id, body, Some(ret_ty), None, range, scope, at) {
            lemma_map_pass_agrees(
                l,
                h,
                n,
                table,
                elem,
                src_ty,
                id,
                body,
                from + 1,
                Some(e),
                range,
                scope,
                at,
            );
        }
    }
}

/// [`filtered_source`] asks for nothing but its parts.
pub broadcast proof fn lemma_filtered_source_agrees<L: SubLowering, H: SubLowering>(
    l: L,
    h: H,
    n: nat,
    table: StdlibTable,
    src: FragmentView,
    routine: Option<Seq<char>>,
    id: Seq<char>,
    condition: Option<Node>,
    range: TokenRange,
    scope: Scope<'_>,
)
    requires
        #[trigger] agree(l, h, n),
        alike(l, h),
    ensures
        #[trigger] filtered_source(
            l,
            table,
            src,
            routine,
            id,
            condition,
            range,
            scope,
        ) == #[trigger] filtered_source(
            h,
            table,
            src,
            routine,
            id,
            condition,
            range,
            scope,
        ),
{
    broadcast use lemma_pass_tail_agrees;
}

/// [`comprehension`] asks for nothing but its parts.
pub broadcast proof fn lemma_comprehension_agrees<L: SubLowering, H: SubLowering>(
    l: L,
    h: H,
    n: nat,
    table: StdlibTable,
    element: Node,
    id: Seq<char>,
    iterable: Node,
    condition: Option<Node>,
    range: TokenRange,
    scope: Scope<'_>,
    at: SlotsView,
)
    requires
        #[trigger] agree(l, h, n),
        alike(l, h),
        nests(n, *element.expr),
        nests(n, *iterable.expr),
    ensures
        #[trigger] comprehension(
            l,
            table,
            element,
            id,
            iterable,
            condition,
            range,
            scope,
            at,
        ) == #[trigger] comprehension(
            h,
            table,
            element,
            id,
            iterable,
            condition,
            range,
            scope,
            at,
        ),
{
    broadcast use {lemma_map_pass_agrees, lemma_filtered_source_agrees};
}

/// [`variant_comprehension`] asks for nothing but its parts.
pub broadcast proof fn lemma_variant_comprehension_agrees<L: SubLowering, H: SubLowering>(
    l: L,
    h: H,
    n: nat,
    table: StdlibTable,
    expected: TypeRepr,
    element: Node,
    id: Seq<char>,
    iterable: Node,
    condition: Option<Node>,
    range: TokenRange,
    scope: Scope<'_>,
    at: SlotsView,
)
    requires
        #[trigger] agree(l, h, n),
        alike(l, h),
        nests(n, *element.expr),
        nests(n, *iterable.expr),
    ensures
        #[trigger] variant_comprehension(
            l,
            table,
            expected,
            element,
            id,
            iterable,
            condition,
            range,
            scope,
            at,
        ) == #[trigger] variant_comprehension(
            h,
            table,
            expected,
            element,
            id,
            iterable,
            condition,
            range,
            scope,
            at,
        ),
{
    broadcast use {lemma_pass_tail_agrees, lemma_filtered_source_agrees};
}

} // verus!

//! Calls of list routines and comprehensions refer only to what is interned.

use vstd::prelude::*;

use crate::ast::{CallArg, ClosureParam, Node, TokenKey, TokenRange};
use crate::chain::StageMethod;
use crate::comprehension::{
    comprehension, filtered_source, map_pass, pass_tail, variant_comprehension, variant_map_routine,
};
use crate::constants::{group_known, keeping, kept, kept_maybe, well_kept};
use crate::error::ErrorView;
use crate::fragment::{slot_at, valued, FragmentView, Scope, SlotsView, SubLowering};
use crate::ir::IrType;
use crate::list_calls::{
    bound_list_reduce, filter_routine, fold_init, fold_tail, hof_call, hof_element, hof_method,
    hof_tail, list_filter, list_fold, list_len, list_map, list_reduce, list_sum_value, map_routines,
    map_tail, materialized_list_reduce, type_const, FoldKind,
};
use crate::stdlib::StdlibTable;
use crate::types::TypeRepr;

verus! {

broadcast use group_known;

proof fn lemma_map_tail_keeps<L: SubLowering>(
    low: L,
    table: StdlibTable,
    elem: IrType,
    from: int,
    closure: Node,
    range: TokenRange,
    scope: Scope<'_>,
    at: SlotsView,
)
    requires
        keeping(low),
        0 <= from,
    ensures
        kept_maybe(at, map_tail(low, table, elem, from, closure, range, scope, at)),
    decreases map_routines(elem).len() - from,
{
    if from < map_routines(elem).len() {
        lemma_map_tail_keeps(low, table, elem, from + 1, closure, range, scope, at);
    }
}

/// A `map` or `filter` behind its list refers to what is interned.
pub proof fn law_hof_tail_keeps<L: SubLowering>(
    low: L,
    table: StdlibTable,
    kind: StageMethod,
    elem: IrType,
    closure: Node,
    range: TokenRange,
    scope: Scope<'_>,
    at: SlotsView,
)
    requires
        keeping(low),
    ensures
        kept_maybe(at, hof_tail(low, table, kind, elem, closure, range, scope, at)),
{
    lemma_map_tail_keeps(low, table, elem, 0, closure, range, scope, at);
}

/// A `map` or `filter` written as a method refers to what is interned.
pub proof fn law_hof_method_keeps<L: SubLowering>(
    low: L,
    table: StdlibTable,
    kind: StageMethod,
    receiver_ty: IrType,
    closure: Node,
    range: TokenRange,
    scope: Scope<'_>,
    at: SlotsView,
)
    requires
        keeping(low),
    ensures
        kept_maybe(at, hof_method(low, table, kind, receiver_ty, closure, range, scope, at)),
{
    match hof_element(receiver_ty) {
        Some(elem) => {
            law_hof_tail_keeps(low, table, kind, elem, closure, range, scope, at);
        },
        None => {},
    }
}

proof fn lemma_hof_call_keeps<L: SubLowering>(
    low: L,
    table: StdlibTable,
    kind: StageMethod,
    args: Seq<CallArg>,
    range: TokenRange,
    scope: Scope<'_>,
    at: SlotsView,
)
    requires
        keeping(low),
    ensures
        kept_maybe(at, hof_call(low, table, kind, args, range, scope, at)),
{
    match low.lowered(args[0].value, scope, at) {
        Err(_) => {},
        Ok(src) => match src.ty {
            None => {},
            Some(ty) => match hof_element(ty) {
                None => {},
                Some(elem) => {
                    law_hof_tail_keeps(
                        low,
                        table,
                        kind,
                        elem,
                        args[1].value,
                        range,
                        scope,
                        src.slots,
                    );
                },
            },
        },
    }
}

proof fn lemma_fold_tail_keeps<L: SubLowering>(
    low: L,
    table: StdlibTable,
    kind: FoldKind,
    at: SlotsView,
    src: FragmentView,
    args: Seq<CallArg>,
    range: TokenRange,
    scope: Scope<'_>,
)
    requires
        keeping(low),
        well_kept(at, src),
    ensures
        kept(at, fold_tail(low, table, kind, src, args, range, scope)),
{
    assert(kept(src.slots, fold_init(low, kind, args[1].value, scope, src.slots)));
}

proof fn lemma_list_fold_keeps<L: SubLowering>(
    low: L,
    table: StdlibTable,
    args: Seq<CallArg>,
    range: TokenRange,
    scope: Scope<'_>,
    at: SlotsView,
)
    requires
        keeping(low),
    ensures
        kept_maybe(at, list_fold(low, table, args, range, scope, at)),
{
    match low.lowered(args[0].value, scope, at) {
        Err(_) => {},
        Ok(src) => {
            lemma_fold_tail_keeps(low, table, FoldKind::Float, at, src, args, range, scope);
            lemma_fold_tail_keeps(low, table, FoldKind::Int, at, src, args, range, scope);
        },
    }
}

/// The fold of a bound list refers to what is interned.
pub proof fn law_bound_list_fold_keeps<L: SubLowering>(
    low: L,
    list: u32,
    init: Node,
    params: Seq<ClosureParam>,
    body: Node,
    range: TokenRange,
    scope: Scope<'_>,
    at: SlotsView,
)
    requires
        keeping(low),
    ensures
        kept(at, bound_list_reduce(low, list, init, params, body, range, scope, at)),
{
    let seeded = valued(
        low.lowered(init, scope, at.after(5)),
        "materialised-list reduce: init produced no value"@,
        init.range,
    );
    match seeded {
        Err(_) => {},
        Ok(seed) => {
            assert(well_kept(at.after(5), seed));
            let acc_ty = seed.ty->0;
            let elem_ty = if low.list_use(params[1].name@, *body.expr) {
                IrType::ListInt
            } else {
                IrType::I64
            };
            let value = low.lowered(
                body,
                scope.with(params[0].name, seed.slots.lets, acc_ty).with(
                    params[1].name,
                    slot_at(seed.slots.lets, 1),
                    elem_ty,
                ),
                seed.slots.after(3),
            );
            assert(kept(seed.slots.after(3), value));
        },
    }
}

/// Every fused call of a list routine refers to what is interned.
pub proof fn law_list_calls_keep<L: SubLowering>(
    low: L,
    table: StdlibTable,
    path: Seq<TokenKey>,
    args: Seq<CallArg>,
    range: TokenRange,
    scope: Scope<'_>,
    at: SlotsView,
)
    requires
        keeping(low),
    ensures
        kept_maybe(at, list_len(low, path, args, range, scope, at)),
        kept_maybe(at, list_sum_value(low, table, path, args, range, scope, at)),
        kept_maybe(at, list_map(low, table, path, args, range, scope, at)),
        kept_maybe(at, list_filter(low, table, path, args, range, scope, at)),
        kept_maybe(at, list_reduce(low, table, path, args, range, scope, at)),
        kept_maybe(at, materialized_list_reduce(low, path, args, range, scope, at)),
{
    lemma_hof_call_keeps(low, table, StageMethod::Transform, args, range, scope, at);
    lemma_hof_call_keeps(low, table, StageMethod::Retain, args, range, scope, at);
    lemma_list_fold_keeps(low, table, args, range, scope, at);
    assert forall|list: u32, init: Node, params: Seq<ClosureParam>, body: Node| kept(
        at,
        #[trigger] bound_list_reduce(low, list, init, params, body, range, scope, at),
    ) by {
        law_bound_list_fold_keeps(low, list, init, params, body, range, scope, at);
    }
}

/// The name of a type is interned.
pub proof fn law_type_constant_keeps<L: SubLowering>(
    low: L,
    path: Seq<TokenKey>,
    args: Seq<CallArg>,
    range: TokenRange,
    scope: Scope<'_>,
    at: SlotsView,
)
    requires
        keeping(low),
    ensures
        kept_maybe(at, type_const(low, path, args, range, scope, at)),
{
    match low.lowered(args[0].value, scope, at) {
        Err(_) => {},
        Ok(f) => {
            assert(well_kept(at, f));
        },
    }
}

proof fn lemma_pass_keeps<L: SubLowering>(
    low: L,
    table: StdlibTable,
    routine: Seq<char>,
    id: Seq<char>,
    body: Node,
    ret_ty: Option<IrType>,
    expected: Option<TypeRepr>,
    range: TokenRange,
    scope: Scope<'_>,
    at: SlotsView,
)
    requires
        keeping(low),
    ensures
        kept(
            at,
            pass_tail(low, table, routine, id, body, ret_ty, expected, range, scope, at),
        ),
{
}

proof fn lemma_map_pass_keeps<L: SubLowering>(
    low: L,
    table: StdlibTable,
    elem: IrType,
    src_ty: Option<IrType>,
    id: Seq<char>,
    body: Node,
    from: int,
    last: Option<ErrorView>,
    range: TokenRange,
    scope: Scope<'_>,
    at: SlotsView,
)
    requires
        keeping(low),
        0 <= from,
    ensures
        kept(
            at,
            map_pass(low, table, elem, src_ty, id, body, from, last, range, scope, at),
        ),
    decreases map_routines(elem).len() - from,
{
    if from < map_routines(elem).len() {
        let (ret_ty, name) = map_routines(elem)[from];
        lemma_pass_keeps(low, table, name, id, body, Some(ret_ty), None, range, scope, at);
        match pass_tail(low, table, name, id, body, Some(ret_ty), None, range, scope, at) {
            Ok(_) => {},
            Err(e) => {
                lemma_map_pass_keeps(
                    low,
                    table,
                    elem,
                    src_ty,
                    id,
                    body,
                    from + 1,
                    last,
                    range,
                    scope,
                    at,
                );
                lemma_map_pass_keeps(
                    low,
                    table,
                    elem,
                    src_ty,
                    id,
                    body,
                    from + 1,
                    Some(e),
                    range,
                    scope,
                    at,
                );
            },
        }
    }
}

proof fn lemma_filtered_source_keeps<L: SubLowering>(
    low: L,
    table: StdlibTable,
    at: SlotsView,
    src: FragmentView,
    routine: Option<Seq<char>>,
    id: Seq<char>,
    condition: Option<Node>,
    range: TokenRange,
    scope: Scope<'_>,
)
    requires
        keeping(low),
        well_kept(at, src),
    ensures
        kept(at, filtered_source(low, table, src, routine, id, condition, range, scope)),
{
    match (condition, routine) {
        (Some(cond), Some(name)) => {
            lemma_pass_keeps(low, table, name, id, cond, None, None, range, scope, src.slots);
        },
        _ => {},
    }
}

/// A comprehension refers to what is interned.
pub proof fn law_comprehension_keeps<L: SubLowering>(
    low: L,
    table: StdlibTable,
    element: Node,
    id: Seq<char>,
    iterable: Node,
    condition: Option<Node>,
    range: TokenRange,
    scope: Scope<'_>,
    at: SlotsView,
)
    requires
        keeping(low),
    ensures
        kept(
            at,
            comprehension(low, table, element, id, iterable, condition, range, scope, at),
        ),
{
    match low.lowered(iterable, scope, at) {
        Err(_) => {},
        Ok(src) => match src.ty {
            None => {},
            Some(ty) => match hof_element(ty) {
                None => {},
                Some(elem) => {
                    let filter = filter_routine(elem);
                    lemma_filtered_source_keeps(
                        low,
                        table,
                        at,
                        src,
                        filter,
                        id,
                        condition,
                        range,
                        scope,
                    );
                    match filtered_source(low, table, src, filter, id, condition, range, scope) {
                        Err(_) => {},
                        Ok(list) => {
                            lemma_map_pass_keeps(
                                low,
                                table,
                                elem,
                                src.ty,
                                id,
                                element,
                                0,
                                None,
                                range,
                                scope,
                                list.slots,
                            );
                        },
                    }
                },
            },
        },
    }
}

/// A comprehension of variants refers to what is interned.
pub proof fn law_variant_comprehension_keeps<L: SubLowering>(
    low: L,
    table: StdlibTable,
    expected: TypeRepr,
    element: Node,
    id: Seq<char>,
    iterable: Node,
    condition: Option<Node>,
    range: TokenRange,
    scope: Scope<'_>,
    at: SlotsView,
)
    requires
        keeping(low),
    ensures
        kept(
            at,
            variant_comprehension(
                low,
                table,
                expected,
                element,
                id,
                iterable,
                condition,
                range,
                scope,
                at,
            ),
        ),
{
    match low.lowered(iterable, scope, at) {
        Err(_) => {},
        Ok(src) => match variant_map_routine(src.ty) {
            None => {},
            Some(routine) => {
                let filter = filter_routine(hof_element(src.ty->0)->0);
                lemma_filtered_source_keeps(
                    low,
                    table,
                    at,
                    src,
                    filter,
                    id,
                    condition,
                    range,
                    scope,
                );
                match filtered_source(low, table, src, filter, id, condition, range, scope) {
                    Err(_) => {},
                    Ok(list) => {
                        lemma_pass_keeps(
                            low,
                            table,
                            routine,
                            id,
                            element,
                            None,
                            Some(expected),
                            range,
                            scope,
                            list.slots,
                        );
                    },
                }
            },
        },
    }
}

} // verus!

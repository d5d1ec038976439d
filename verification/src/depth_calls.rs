//! Calls and expressions ask for nothing but their parts.

use vstd::prelude::*;

use crate::ast::{CallArg, Expr, TokenKey, TokenRange};
use crate::calls::{
    branded_call, closure_args, fn_call, free_call, fused_forms, local_closure_call, math_forms,
    method_call, method_hof, plain_call, routine_args, routine_method, CallLowering,
};
use crate::depth::{
    agree, alike, alike_calls, alike_exprs, alike_forms, args_nest, arms_nest, flat_nests,
    keys_nest, nests, nodes_nest,
};
use crate::depth_lists::{
    lemma_comprehension_agrees, lemma_hof_method_agrees, lemma_list_filter_agrees,
    lemma_list_len_agrees, lemma_list_lowered_agrees, lemma_list_map_agrees,
    lemma_list_reduce_agrees, lemma_list_sum_value_agrees, lemma_materialized_list_reduce_agrees,
    lemma_range_value_agrees, lemma_type_const_agrees,
};
use crate::depth_match::lemma_match_lowered_agrees;
use crate::depth_ranges::{
    lemma_len_filter_range_agrees, lemma_list_sum_range_agrees,
    lemma_nested_range_map_reduce_agrees, lemma_range_chain_len_agrees,
    lemma_range_chain_reduce_agrees,
};
use crate::depth_reads::lemma_variable_agrees;
use crate::emit_order::resolved;
use crate::expr::{expr_lowered, ExprEnv, ExprLowering};
use crate::fragment::{FragmentView, Scope, SigView, SlotsView, SubLowering};
use crate::ir::{IrType, TaggedOpView};
use crate::names::NameTable;
use crate::native_import::{native_args, native_call, HostFnEntry};
use crate::stdlib::StdlibTable;

verus! {

/// [`native_args`] asks for nothing but its parts.
pub broadcast proof fn lemma_native_args_agrees<L: SubLowering, H: SubLowering>(
    l: L,
    h: H,
    n: nat,
    name: Seq<char>,
    args: Seq<CallArg>,
    tys: Seq<IrType>,
    range: TokenRange,
    scope: Scope<'_>,
    at: SlotsView,
)
    requires
        #[trigger] agree(l, h, n),
        alike(l, h),
        args_nest(n, args),
    ensures
        #[trigger] native_args(l, name, args, tys, range, scope, at) == #[trigger] native_args(
            h,
            name,
            args,
            tys,
            range,
            scope,
            at,
        ),
    decreases args.len(),
{
    if args.len() > 0 {
        assert(args_nest(n, args.drop_last())) by {
            assert forall|i: int| 0 <= i < args.drop_last().len() implies nests(
                n,
                *(#[trigger] args.drop_last()[i]).value.expr,
            ) by {
                assert(args[i] == args.drop_last()[i]);
            }
        }
        assert(args.last() == args[args.len() - 1]);
        lemma_native_args_agrees(l, h, n, name, args.drop_last(), tys, range, scope, at);
    }
}

/// [`native_call`] asks for nothing but its parts.
pub broadcast proof fn lemma_native_call_agrees<L: SubLowering, H: SubLowering>(
    l: L,
    h: H,
    n: nat,
    resolved: NameTable<HostFnEntry>,
    name: Seq<char>,
    args: Seq<CallArg>,
    range: TokenRange,
    scope: Scope<'_>,
    at: SlotsView,
)
    requires
        #[trigger] agree(l, h, n),
        alike(l, h),
        args_nest(n, args),
    ensures
        #[trigger] native_call(
            l,
            resolved,
            name,
            args,
            range,
            scope,
            at,
        ) == #[trigger] native_call(
            h,
            resolved,
            name,
            args,
            range,
            scope,
            at,
        ),
{
    broadcast use lemma_native_args_agrees;
}

/// [`closure_args`] asks for nothing but its parts.
pub broadcast proof fn lemma_closure_args_agrees<L: CallLowering, H: CallLowering>(
    l: L,
    h: H,
    n: nat,
    name: Seq<char>,
    sig: SigView,
    args: Seq<CallArg>,
    range: TokenRange,
    scope: Scope<'_>,
    done: Seq<TaggedOpView>,
    at: SlotsView,
    from: int,
)
    requires
        #[trigger] agree(l, h, n),
        alike_calls(l, h),
        args_nest(n, args),
    ensures
        #[trigger] closure_args(
            l,
            name,
            sig,
            args,
            range,
            scope,
            done,
            at,
            from,
        ) == #[trigger] closure_args(
            h,
            name,
            sig,
            args,
            range,
            scope,
            done,
            at,
            from,
        ),
    decreases args.len() - from,
{
    if 0 <= from < args.len() {
        let value = args[from].value;
        assert(nests(n, *value.expr));
        if let Ok(f) = l.lowered(value, scope, at) {
            lemma_closure_args_agrees(
                l,
                h,
                n,
                name,
                sig,
                args,
                range,
                scope,
                done + f.ops,
                f.slots,
                from + 1,
            );
            if let Ok(text) = l.rendered(f.ty->0, value.range, f.slots) {
                lemma_closure_args_agrees(
                    l,
                    h,
                    n,
                    name,
                    sig,
                    args,
                    range,
                    scope,
                    done + f.ops + text.ops,
                    text.slots,
                    from + 1,
                );
            }
        }
    }
}

/// [`local_closure_call`] asks for nothing but its parts.
pub broadcast proof fn lemma_local_closure_call_agrees<L: CallLowering, H: CallLowering>(
    l: L,
    h: H,
    n: nat,
    path: Seq<TokenKey>,
    args: Seq<CallArg>,
    range: TokenRange,
    scope: Scope<'_>,
    at: SlotsView,
)
    requires
        #[trigger] agree(l, h, n),
        alike_calls(l, h),
        keys_nest(n, path),
        args_nest(n, args),
    ensures
        #[trigger] local_closure_call(
            l,
            path,
            args,
            range,
            scope,
            at,
        ) == #[trigger] local_closure_call(
            h,
            path,
            args,
            range,
            scope,
            at,
        ),
{
    broadcast use lemma_closure_args_agrees;
}

/// [`routine_args`] asks for nothing but its parts.
pub broadcast proof fn lemma_routine_args_agrees<L: CallLowering, H: CallLowering>(
    l: L,
    h: H,
    n: nat,
    method: Seq<char>,
    routine: Seq<char>,
    params: Seq<IrType>,
    shift: int,
    args: Seq<CallArg>,
    range: TokenRange,
    scope: Scope<'_>,
    done: Seq<TaggedOpView>,
    at: SlotsView,
    from: int,
)
    requires
        #[trigger] agree(l, h, n),
        alike_calls(l, h),
        args_nest(n, args),
    ensures
        #[trigger] routine_args(
            l,
            method,
            routine,
            params,
            shift,
            args,
            range,
            scope,
            done,
            at,
            from,
        ) == #[trigger] routine_args(
            h,
            method,
            routine,
            params,
            shift,
            args,
            range,
            scope,
            done,
            at,
            from,
        ),
    decreases args.len() - from,
{
    if 0 <= from < args.len() {
        let value = args[from].value;
        assert(nests(n, *value.expr));
        let lowered = l.lowered(value, scope, at);
        if let Ok(f) = l.stdlib_arg(
            routine,
            from + shift,
            value,
            lowered,
            params,
            range,
            scope,
            at,
        ) {
            lemma_routine_args_agrees(
                l,
                h,
                n,
                method,
                routine,
                params,
                shift,
                args,
                range,
                scope,
                done + f.ops,
                f.slots,
                from + 1,
            );
        }
    }
}

/// [`free_call`] asks for nothing but its parts.
pub broadcast proof fn lemma_free_call_agrees<L: CallLowering, H: CallLowering>(
    l: L,
    h: H,
    n: nat,
    table: StdlibTable,
    resolved: NameTable<HostFnEntry>,
    name: Seq<char>,
    args: Seq<CallArg>,
    range: TokenRange,
    scope: Scope<'_>,
    at: SlotsView,
)
    requires
        #[trigger] agree(l, h, n),
        alike_calls(l, h),
        args_nest(n, args),
    ensures
        #[trigger] free_call(
            l,
            table,
            resolved,
            name,
            args,
            range,
            scope,
            at,
        ) == #[trigger] free_call(
            h,
            table,
            resolved,
            name,
            args,
            range,
            scope,
            at,
        ),
{
    broadcast use {lemma_native_call_agrees, lemma_routine_args_agrees};
}

/// [`method_hof`] asks for nothing but its parts.
pub broadcast proof fn lemma_method_hof_agrees<L: CallLowering, H: CallLowering>(
    l: L,
    h: H,
    n: nat,
    table: StdlibTable,
    receiver: IrType,
    name: Seq<char>,
    args: Seq<CallArg>,
    range: TokenRange,
    scope: Scope<'_>,
    at: SlotsView,
)
    requires
        #[trigger] agree(l, h, n),
        alike_calls(l, h),
        args_nest(n, args),
    ensures
        #[trigger] method_hof(
            l,
            table,
            receiver,
            name,
            args,
            range,
            scope,
            at,
        ) == #[trigger] method_hof(
            h,
            table,
            receiver,
            name,
            args,
            range,
            scope,
            at,
        ),
{
    broadcast use lemma_hof_method_agrees;
}

/// [`routine_method`] asks for nothing but its parts.
pub broadcast proof fn lemma_routine_method_agrees<L: CallLowering, H: CallLowering>(
    l: L,
    h: H,
    n: nat,
    table: StdlibTable,
    f: FragmentView,
    ty: IrType,
    name: Seq<char>,
    args: Seq<CallArg>,
    range: TokenRange,
    scope: Scope<'_>,
)
    requires
        #[trigger] agree(l, h, n),
        alike_calls(l, h),
        args_nest(n, args),
    ensures
        #[trigger] routine_method(
            l,
            table,
            f,
            ty,
            name,
            args,
            range,
            scope,
        ) == #[trigger] routine_method(
            h,
            table,
            f,
            ty,
            name,
            args,
            range,
            scope,
        ),
{
    broadcast use lemma_routine_args_agrees;
}

/// [`method_call`] asks for nothing but its parts.
pub broadcast proof fn lemma_method_call_agrees<L: CallLowering, H: CallLowering>(
    l: L,
    h: H,
    n: nat,
    table: StdlibTable,
    segments: Seq<TokenKey>,
    name: Seq<char>,
    args: Seq<CallArg>,
    range: TokenRange,
    scope: Scope<'_>,
    at: SlotsView,
)
    requires
        #[trigger] agree(l, h, n),
        alike_calls(l, h),
        args_nest(n, args),
    ensures
        #[trigger] method_call(
            l,
            table,
            segments,
            name,
            args,
            range,
            scope,
            at,
        ) == #[trigger] method_call(
            h,
            table,
            segments,
            name,
            args,
            range,
            scope,
            at,
        ),
{
    broadcast use {lemma_method_hof_agrees, lemma_routine_method_agrees, lemma_branded_call_agrees};
}

/// [`branded_call`] asks for nothing but its parts.
pub broadcast proof fn lemma_branded_call_agrees<L: CallLowering, H: CallLowering>(
    l: L,
    h: H,
    n: nat,
    brand: Option<Seq<char>>,
    name: Seq<char>,
    args: Seq<CallArg>,
    range: TokenRange,
    scope: Scope<'_>,
    at: SlotsView,
)
    requires
        #[trigger] agree(l, h, n),
        alike_calls(l, h),
        args_nest(n, args),
    ensures
        #[trigger] branded_call(
            l,
            brand,
            name,
            args,
            range,
            scope,
            at,
        ) == #[trigger] branded_call(
            h,
            brand,
            name,
            args,
            range,
            scope,
            at,
        ),
{
}

/// [`fused_forms`] asks for nothing but its parts.
pub broadcast proof fn lemma_fused_forms_agrees<L: CallLowering, H: CallLowering>(
    l: L,
    h: H,
    n: nat,
    table: StdlibTable,
    path: Seq<TokenKey>,
    args: Seq<CallArg>,
    range: TokenRange,
    scope: Scope<'_>,
    at: SlotsView,
)
    requires
        #[trigger] agree(l, h, n),
        alike_calls(l, h),
        keys_nest(n, path),
        args_nest(n, args),
    ensures
        #[trigger] fused_forms(
            l,
            table,
            path,
            args,
            range,
            scope,
            at,
        ) == #[trigger] fused_forms(
            h,
            table,
            path,
            args,
            range,
            scope,
            at,
        ),
{
    broadcast use {
        lemma_len_filter_range_agrees,
        lemma_list_filter_agrees,
        lemma_list_len_agrees,
        lemma_list_map_agrees,
        lemma_list_reduce_agrees,
        lemma_list_sum_range_agrees,
        lemma_list_sum_value_agrees,
        lemma_local_closure_call_agrees,
        lemma_materialized_list_reduce_agrees,
        lemma_nested_range_map_reduce_agrees,
        lemma_range_chain_len_agrees,
        lemma_range_chain_reduce_agrees,
        lemma_range_value_agrees,
    };
}

/// [`math_forms`] asks for nothing but its parts.
pub broadcast proof fn lemma_math_forms_agrees<L: CallLowering, H: CallLowering>(
    l: L,
    h: H,
    n: nat,
    path: Seq<TokenKey>,
    args: Seq<CallArg>,
    range: TokenRange,
    scope: Scope<'_>,
    at: SlotsView,
)
    requires
        #[trigger] agree(l, h, n),
        alike_calls(l, h),
        keys_nest(n, path),
        args_nest(n, args),
    ensures
        #[trigger] math_forms(l, path, args, range, scope, at) == #[trigger] math_forms(
            h,
            path,
            args,
            range,
            scope,
            at,
        ),
{
}

/// [`plain_call`] asks for nothing but its parts.
pub broadcast proof fn lemma_plain_call_agrees<L: CallLowering, H: CallLowering>(
    l: L,
    h: H,
    n: nat,
    table: StdlibTable,
    resolved: NameTable<HostFnEntry>,
    path: Seq<TokenKey>,
    args: Seq<CallArg>,
    range: TokenRange,
    scope: Scope<'_>,
    at: SlotsView,
)
    requires
        #[trigger] agree(l, h, n),
        alike_calls(l, h),
        keys_nest(n, path),
        args_nest(n, args),
    ensures
        #[trigger] plain_call(
            l,
            table,
            resolved,
            path,
            args,
            range,
            scope,
            at,
        ) == #[trigger] plain_call(
            h,
            table,
            resolved,
            path,
            args,
            range,
            scope,
            at,
        ),
{
    broadcast use {lemma_free_call_agrees, lemma_method_call_agrees, lemma_math_forms_agrees};
}

/// [`fn_call`] asks for nothing but its parts.
pub broadcast proof fn lemma_fn_call_agrees<L: CallLowering, H: CallLowering>(
    l: L,
    h: H,
    n: nat,
    table: StdlibTable,
    resolved: NameTable<HostFnEntry>,
    path: Seq<TokenKey>,
    args: Seq<CallArg>,
    range: TokenRange,
    scope: Scope<'_>,
    at: SlotsView,
)
    requires
        #[trigger] agree(l, h, n),
        alike_calls(l, h),
        keys_nest(n, path),
        args_nest(n, args),
    ensures
        #[trigger] fn_call(
            l,
            table,
            resolved,
            path,
            args,
            range,
            scope,
            at,
        ) == #[trigger] fn_call(
            h,
            table,
            resolved,
            path,
            args,
            range,
            scope,
            at,
        ),
{
    broadcast use {lemma_type_const_agrees, lemma_fused_forms_agrees, lemma_plain_call_agrees};
}

/// Two lowerings that agree on the parts of an expression, and on what its
/// spreads are flattened to, give the same for the whole.
pub(crate) proof fn lemma_expression_agrees<L: ExprLowering, H: ExprLowering>(
    l: L,
    h: H,
    n: nat,
    env: ExprEnv<'_>,
    expr: Expr,
    range: TokenRange,
    scope: Scope<'_>,
    at: SlotsView,
)
    requires
        alike_forms(l, h),
        agree(l, h, n),
        nests(n + 1, expr),
        expr matches Expr::List(items) ==> flat_nests(n, l.spread(items@, range, scope, at)),
    ensures
        expr_lowered(l, env, expr, range, scope, at) == expr_lowered(
            h,
            env,
            expr,
            range,
            scope,
            at,
        ),
{
    broadcast use {
        lemma_comprehension_agrees,
        lemma_fn_call_agrees,
        lemma_list_lowered_agrees,
        lemma_match_lowered_agrees,
        lemma_variable_agrees,
    };

    match expr {
        Expr::List(items) => {
            assert(nodes_nest(n, items@));
        },
        Expr::Variable(path) => {
            assert(keys_nest(n, path@));
        },
        Expr::Match { expr: scrutinee, arms } => {
            assert(nests(n, *scrutinee.expr));
            assert(arms_nest(n, arms@));
        },
        Expr::Comprehension { element, iterable, .. } => {
            assert(nests(n, *element.expr) && nests(n, *iterable.expr));
        },
        Expr::FnCall { path, args } => {
            assert(keys_nest(n, path@));
            assert(args_nest(n, args@));
        },
        _ => {},
    }
}

/// The lowering of an expression asks another one for nothing but the parts of
/// the expression: two lowerings that agree on the parts give the same for the
/// whole, be it code or an error.
pub proof fn law_expression_asks_only_its_parts<L: ExprLowering, H: ExprLowering>(
    l: L,
    h: H,
    n: nat,
    env: ExprEnv<'_>,
    expr: Expr,
    range: TokenRange,
    scope: Scope<'_>,
    at: SlotsView,
)
    requires
        alike_exprs(l, h),
        agree(l, h, n),
        nests(n + 1, expr),
    ensures
        expr_lowered(l, env, expr, range, scope, at) == expr_lowered(
            h,
            env,
            expr,
            range,
            scope,
            at,
        ),
{
    if let Expr::List(items) = expr {
        assert(nodes_nest(n, items@));
        assert(flat_nests(n, l.spread(items@, range, scope, at)));
    }
    lemma_expression_agrees(l, h, n, env, expr, range, scope, at);
}

} // verus!

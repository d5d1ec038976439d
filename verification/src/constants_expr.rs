//! Every lowered expression refers only to what is interned.

use vstd::prelude::*;

use crate::ast::{plain_name, CallArg, Expr, Node, TokenKey, TokenRange};
use crate::calls::{
    branded_call, closure_args, first_applied, fn_call, free_call, fused_forms, hof_kind,
    local_closure_call, math_forms, method_call, method_hof, plain_call, routine_args,
    routine_called, routine_method, CallLowering, SpecialCall,
};
use crate::constants::{group_known, keeping, kept, kept_maybe, known, op_known, well_kept};
use crate::constants_calls::{
    law_comprehension_keeps, law_hof_method_keeps, law_list_calls_keep, law_type_constant_keeps,
};
use crate::constants_lists::{law_literal_list_keeps, law_range_value_keeps};
use crate::constants_match::law_match_keeps;
use crate::constants_ranges::law_range_calls_keep;
use crate::constants_reads::{law_reference_keeps, law_variable_keeps};
use crate::constants_records::{keeping_records, law_leaf_record_lowering_keeps};
use crate::error::ErrorView;
use crate::expr::{expr_lowered, ExprEnv, ExprLowering};
use crate::fragment::{let_get, FragmentView, LeafLowering, Scope, SigView, SlotsView, SubLowering};
use crate::ir::{IrType, TaggedOpView};
use crate::list_calls::type_const;
use crate::list_literal::{computed_list, const_list, SpreadView};
use crate::materialize::LiteralKind;
use crate::names::{name_index, NameTable};
use crate::native_import::{cap_checks, native_args, native_call, HostFnEntry};
use crate::stdlib::StdlibTable;

verus! {

broadcast use group_known;

/// What the lowering of calls asks for is well kept.
pub open spec fn keeping_calls<L: CallLowering>(low: L) -> bool {
    &&& keeping_records(low)
    &&& forall|
        which: SpecialCall,
        path: Seq<TokenKey>,
        args: Seq<CallArg>,
        range: TokenRange,
        scope: Scope<'_>,
        at: SlotsView,
    |
        kept_maybe(at, #[trigger] low.special(which, path, args, range, scope, at))
    &&& forall|
        routine: Seq<char>,
        index: int,
        value: Node,
        lowered: Result<FragmentView, ErrorView>,
        params: Seq<IrType>,
        range: TokenRange,
        scope: Scope<'_>,
        at: SlotsView,
    |
        kept(at, lowered) ==> kept(at, #[trigger] low.stdlib_arg(
            routine,
            index,
            value,
            lowered,
            params,
            range,
            scope,
            at,
        ))
    &&& forall|segments: Seq<TokenKey>, range: TokenRange, scope: Scope<'_>, at: SlotsView|
        (#[trigger] low.receiver(segments, range, scope, at)) matches Ok((f, _)) ==> well_kept(
            at,
            f,
        )
    &&& forall|
        brand: Seq<char>,
        method: Seq<char>,
        args: Seq<CallArg>,
        range: TokenRange,
        scope: Scope<'_>,
        at: SlotsView,
    |
        (#[trigger] low.schema_call(brand, method, args, range, scope, at)) matches Some(r)
            ==> kept(at, r)
    &&& forall|ty: IrType, range: TokenRange, at: SlotsView|
        kept(at, #[trigger] low.rendered(ty, range, at))
}

/// What the lowering of expressions asks for is well kept.
pub open spec fn keeping_exprs<L: ExprLowering>(low: L) -> bool {
    &&& keeping_calls(low)
    &&& forall|expr: Expr, range: TokenRange, scope: Scope<'_>, at: SlotsView|
        kept(at, #[trigger] low.composite(expr, range, scope, at))
    &&& forall|items: Seq<Node>, range: TokenRange, scope: Scope<'_>, at: SlotsView|
        (#[trigger] low.spread(items, range, scope, at)) matches Some(Ok(SpreadView::Done(f)))
            ==> well_kept(at, f)
}

/// The lowering of leaf expressions is well kept in all that is asked of it.
pub proof fn law_leaf_expr_lowering_keeps()
    ensures
        keeping_exprs(LeafLowering),
{
    law_leaf_record_lowering_keeps();
}

// ---------------------------------------------------------------------------
// Closures and host functions.
// ---------------------------------------------------------------------------

proof fn lemma_closure_args_keep<L: CallLowering>(
    low: L,
    name: Seq<char>,
    sig: SigView,
    args: Seq<CallArg>,
    range: TokenRange,
    scope: Scope<'_>,
    done: Seq<TaggedOpView>,
    at: SlotsView,
    from: int,
)
    requires
        keeping_calls(low),
        known(done, at),
    ensures
        kept(at, closure_args(low, name, sig, args, range, scope, done, at, from)),
    decreases args.len() - from,
{
    if 0 <= from < args.len() {
        match low.lowered(args[from].value, scope, at) {
            Err(_) => {},
            Ok(f) => match f.ty {
                None => {},
                Some(got) => {
                    assert(well_kept(at, f));
                    let more = done + f.ops;
                    lemma_closure_args_keep(
                        low,
                        name,
                        sig,
                        args,
                        range,
                        scope,
                        more,
                        f.slots,
                        from + 1,
                    );
                    match low.rendered(got, args[from].value.range, f.slots) {
                        Err(_) => {},
                        Ok(text) => {
                            assert(well_kept(f.slots, text));
                            lemma_closure_args_keep(
                                low,
                                name,
                                sig,
                                args,
                                range,
                                scope,
                                more + text.ops,
                                text.slots,
                                from + 1,
                            );
                        },
                    }
                },
            },
        }
    }
}

/// The call of a local closure refers to what is interned.
pub proof fn law_local_closure_call_keeps<L: CallLowering>(
    low: L,
    path: Seq<TokenKey>,
    args: Seq<CallArg>,
    range: TokenRange,
    scope: Scope<'_>,
    at: SlotsView,
)
    requires
        keeping_calls(low),
    ensures
        kept_maybe(at, local_closure_call(low, path, args, range, scope, at)),
{
    match local_closure_call(low, path, args, range, scope, at) {
        Ok(Some(f)) => {
            let name = plain_name(path)->0;
            let b = scope.find(name)->0;
            let sig = *b.closure->0;
            let head = seq![let_get(b.idx, IrType::Closure, range)];
            lemma_closure_args_keep(low, name, sig@, args, range, scope, head, at, 0);
            assert(op_known(f.ops.last(), f.slots));
        },
        _ => {},
    }
}

proof fn lemma_native_args_keep<L: SubLowering>(
    low: L,
    name: Seq<char>,
    args: Seq<CallArg>,
    tys: Seq<IrType>,
    range: TokenRange,
    scope: Scope<'_>,
    at: SlotsView,
)
    requires
        keeping(low),
    ensures
        kept(at, native_args(low, name, args, tys, range, scope, at)),
    decreases args.len(),
{
    if args.len() > 0 {
        lemma_native_args_keep(low, name, args.drop_last(), tys, range, scope, at);
    }
}

/// The call of a host function names an import, which is interned.
pub proof fn law_native_call_keeps<L: SubLowering>(
    low: L,
    resolved: NameTable<HostFnEntry>,
    name: Seq<char>,
    args: Seq<CallArg>,
    range: TokenRange,
    scope: Scope<'_>,
    at: SlotsView,
)
    requires
        keeping(low),
    ensures
        kept_maybe(at, native_call(low, resolved, name, args, range, scope, at)),
{
    match name_index(resolved.entries@, name, 0) {
        None => {},
        Some(i) => {
            let entry = resolved.entries@[i].1@;
            lemma_native_args_keep(low, name, args, entry.param_tys, range, scope, at);
            match native_call(low, resolved, name, args, range, scope, at) {
                Ok(Some(f)) => {
                    assert(known(cap_checks(entry.required_bits, range), f.slots));
                    assert(op_known(f.ops.last(), f.slots));
                },
                _ => {},
            }
        },
    }
}

// ---------------------------------------------------------------------------
// Routines and methods.
// ---------------------------------------------------------------------------

proof fn lemma_routine_args_keep<L: CallLowering>(
    low: L,
    method: Seq<char>,
    routine: Seq<char>,
    params: Seq<IrType>,
    shift: int,
    args: Seq<CallArg>,
    range: TokenRange,
    scope: Scope<'_>,
    done: Seq<TaggedOpView>,
    at: SlotsView,
    from: int,
)
    requires
        keeping_calls(low),
        known(done, at),
    ensures
        kept(
            at,
            routine_args(
                low,
                method,
                routine,
                params,
                shift,
                args,
                range,
                scope,
                done,
                at,
                from,
            ),
        ),
    decreases args.len() - from,
{
    if 0 <= from < args.len() {
        let value = args[from].value;
        let lowered = low.lowered(value, scope, at);
        match low.stdlib_arg(routine, from + shift, value, lowered, params, range, scope, at) {
            Err(_) => {},
            Ok(f) => {
                assert(well_kept(at, f));
                lemma_routine_args_keep(
                    low,
                    method,
                    routine,
                    params,
                    shift,
                    args,
                    range,
                    scope,
                    done + f.ops,
                    f.slots,
                    from + 1,
                );
            },
        }
    }
}

proof fn lemma_routine_called_keeps(
    table: StdlibTable,
    index: int,
    arity: int,
    operands: Result<FragmentView, ErrorView>,
    range: TokenRange,
    at: SlotsView,
)
    requires
        kept(at, operands),
    ensures
        kept(at, routine_called(table, index, arity, operands, range)),
{
    match routine_called(table, index, arity, operands, range) {
        Ok(f) => {
            assert(op_known(f.ops.last(), f.slots));
        },
        Err(_) => {},
    }
}

/// A call by a bare name refers to what is interned.
pub proof fn law_free_call_keeps<L: CallLowering>(
    low: L,
    table: StdlibTable,
    resolved: NameTable<HostFnEntry>,
    name: Seq<char>,
    args: Seq<CallArg>,
    range: TokenRange,
    scope: Scope<'_>,
    at: SlotsView,
)
    requires
        keeping_calls(low),
    ensures
        kept(at, free_call(low, table, resolved, name, args, range, scope, at)),
{
    law_native_call_keeps(low, resolved, name, args, range, scope, at);
    match table.index_of(name) {
        None => {},
        Some(i) => {
            let entry = table.entries@[i];
            let none = Seq::<TaggedOpView>::empty();
            let operands = routine_args(
                low,
                name,
                entry.name@,
                entry.params@,
                0,
                args,
                range,
                scope,
                none,
                at,
                0,
            );
            lemma_routine_args_keep(
                low,
                name,
                entry.name@,
                entry.params@,
                0,
                args,
                range,
                scope,
                none,
                at,
                0,
            );
            lemma_routine_called_keeps(table, i, args.len() as int, operands, range, at);
        },
    }
}

/// A method call refers to what is interned.
pub proof fn law_method_call_keeps<L: CallLowering>(
    low: L,
    table: StdlibTable,
    segments: Seq<TokenKey>,
    name: Seq<char>,
    args: Seq<CallArg>,
    range: TokenRange,
    scope: Scope<'_>,
    at: SlotsView,
)
    requires
        keeping_calls(low),
    ensures
        kept(at, method_call(low, table, segments, name, args, range, scope, at)),
{
    match low.receiver(segments, range, scope, at) {
        Err(_) => {},
        Ok((f, brand)) => match f.ty {
            None => {},
            Some(ty) => {
                assert(well_kept(at, f));
                match branded_call(low, brand, name, args, range, scope, f.slots) {
                    Some(rest) => {
                        assert(kept(f.slots, rest));
                    },
                    None => {},
                }
                match hof_kind(name) {
                    Some(kind) => {
                        if args.len() == 1 {
                            law_hof_method_keeps(
                                low,
                                table,
                                kind,
                                ty,
                                args[0].value,
                                range,
                                scope,
                                f.slots,
                            );
                        }
                    },
                    None => {},
                }
                assert(kept_maybe(
                    f.slots,
                    method_hof(low, table, ty, name, args, range, scope, f.slots),
                ));
                match low.method_index(ty, name) {
                    None => {},
                    Some(i) => {
                        let entry = table.entries@[i as int];
                        let operands = routine_args(
                            low,
                            name,
                            entry.name@,
                            entry.params@,
                            1,
                            args,
                            range,
                            scope,
                            f.ops,
                            f.slots,
                            0,
                        );
                        lemma_routine_args_keep(
                            low,
                            name,
                            entry.name@,
                            entry.params@,
                            1,
                            args,
                            range,
                            scope,
                            f.ops,
                            f.slots,
                            0,
                        );
                        let arity = (1 + args.len()) as int;
                        lemma_routine_called_keeps(
                            table,
                            i as int,
                            arity,
                            operands,
                            range,
                            f.slots,
                        );
                    },
                }
                assert(kept(
                    f.slots,
                    routine_method(low, table, f, ty, name, args, range, scope),
                ));
            },
        },
    }
}

proof fn lemma_first_applied_keeps(
    attempts: Seq<Result<Option<FragmentView>, ErrorView>>,
    at: SlotsView,
    from: int,
)
    requires
        forall|i: int| 0 <= i < attempts.len() ==> kept_maybe(at, #[trigger] attempts[i]),
    ensures
        kept_maybe(at, first_applied(attempts, from)),
    decreases attempts.len() - from,
{
    if 0 <= from < attempts.len() {
        lemma_first_applied_keeps(attempts, at, from + 1);
    }
}

proof fn lemma_fused_forms_keep<L: CallLowering>(
    low: L,
    table: StdlibTable,
    path: Seq<TokenKey>,
    args: Seq<CallArg>,
    range: TokenRange,
    scope: Scope<'_>,
    at: SlotsView,
)
    requires
        keeping_calls(low),
    ensures
        kept_maybe(
            at,
            first_applied(fused_forms(low, table, path, args, range, scope, at), 0),
        ),
{
    law_local_closure_call_keeps(low, path, args, range, scope, at);
    law_range_calls_keep(low, path, args, range, scope, at);
    law_list_calls_keep(low, table, path, args, range, scope, at);
    law_range_value_keeps(low, path, args, range, scope, at);
    let forms = fused_forms(low, table, path, args, range, scope, at);
    assert forall|i: int| 0 <= i < forms.len() implies kept_maybe(at, #[trigger] forms[i]) by {
        assert(kept_maybe(at, low.special(SpecialCall::Count, path, args, range, scope, at)));
        assert(kept_maybe(at, low.special(SpecialCall::Quantifier, path, args, range, scope, at)));
        assert(kept_maybe(at, low.special(SpecialCall::Unique, path, args, range, scope, at)));
    }
    lemma_first_applied_keeps(forms, at, 0);
}

proof fn lemma_plain_call_keeps<L: CallLowering>(
    low: L,
    table: StdlibTable,
    resolved: NameTable<HostFnEntry>,
    path: Seq<TokenKey>,
    args: Seq<CallArg>,
    range: TokenRange,
    scope: Scope<'_>,
    at: SlotsView,
)
    requires
        keeping_calls(low),
    ensures
        kept(at, plain_call(low, table, resolved, path, args, range, scope, at)),
{
    match path.last() {
        TokenKey::String(name, _, _) => {
            let forms = math_forms(low, path, args, range, scope, at);
            assert(kept_maybe(at, first_applied(forms, 0))) by {
                assert(kept_maybe(
                    at,
                    low.special(SpecialCall::ScalarMath, path, args, range, scope, at),
                ));
                assert(kept_maybe(
                    at,
                    low.special(SpecialCall::PredicateMath, path, args, range, scope, at),
                ));
                assert(kept_maybe(
                    at,
                    low.special(SpecialCall::SizeInRange, path, args, range, scope, at),
                ));
                lemma_first_applied_keeps(forms, at, 0);
            }
            law_free_call_keeps(low, table, resolved, name@, args, range, scope, at);
            law_method_call_keeps(low, table, path.drop_last(), name@, args, range, scope, at);
        },
        _ => {},
    }
}

/// A call refers to what is interned.
pub proof fn law_call_keeps<L: CallLowering>(
    low: L,
    table: StdlibTable,
    resolved: NameTable<HostFnEntry>,
    path: Seq<TokenKey>,
    args: Seq<CallArg>,
    range: TokenRange,
    scope: Scope<'_>,
    at: SlotsView,
)
    requires
        keeping_calls(low),
    ensures
        kept(at, fn_call(low, table, resolved, path, args, range, scope, at)),
{
    lemma_fused_forms_keep(low, table, path, args, range, scope, at);
    law_type_constant_keeps(low, path, args, range, scope, at);
    lemma_plain_call_keeps(low, table, resolved, path, args, range, scope, at);
    let fused = first_applied(fused_forms(low, table, path, args, range, scope, at), 0);
    let named = type_const(low, path, args, range, scope, at);
    match (fused, named) {
        (Ok(None), Ok(Some(f))) => {
            assert(well_kept(at, f));
        },
        _ => {},
    }
}

// ---------------------------------------------------------------------------
// Expressions.
// ---------------------------------------------------------------------------

proof fn lemma_computed_list_keeps<L: SubLowering>(
    low: L,
    word: Seq<char>,
    items: Seq<Node>,
    range: TokenRange,
    scope: Scope<'_>,
    at: SlotsView,
)
    requires
        keeping(low),
    ensures
        kept(at, computed_list(low, word, items, range, scope, at)),
{
    law_literal_list_keeps(low, LiteralKind::Float, items, range, scope, at);
    law_literal_list_keeps(low, LiteralKind::Int, items, range, scope, at);
}

proof fn lemma_const_list_keeps(items: Seq<Node>, range: TokenRange, at: SlotsView)
    ensures
        kept(at, const_list(items, range, at)),
{
    match const_list(items, range, at) {
        Err(_) => {},
        Ok(f) => {
            assert(op_known(f.ops[0], f.slots));
        },
    }
}

/// Every expression that is lowered refers only to strings and imports that are
/// interned, and keeps those that were, where the expressions in it do.
pub proof fn law_expression_keeps<L: ExprLowering>(
    low: L,
    env: ExprEnv<'_>,
    expr: Expr,
    range: TokenRange,
    scope: Scope<'_>,
    at: SlotsView,
)
    requires
        keeping_exprs(low),
    ensures
        kept(at, expr_lowered(low, env, expr, range, scope, at)),
{
    match expr {
        Expr::List(items) => {
            lemma_computed_list_keeps(low, "computed"@, items@, range, scope, at);
            lemma_const_list_keeps(items@, range, at);
            match low.spread(items@, range, scope, at) {
                Some(Ok(SpreadView::Flat(flat))) => {
                    lemma_computed_list_keeps(low, "spread"@, flat, range, scope, at);
                },
                _ => {},
            }
        },
        Expr::Variable(path) => {
            law_variable_keeps(low, env.frame, path@, range, scope, at);
        },
        Expr::Reference { base, path } => {
            law_reference_keeps(base, path@, range, scope, at);
        },
        Expr::Match { expr: scrutinee, arms } => {
            law_match_keeps(
                low,
                env.frame,
                scrutinee,
                arms@,
                env.builtins@,
                range,
                scope,
                at,
            );
        },
        Expr::Comprehension { element, id, iterable, condition } => {
            law_comprehension_keeps(
                low,
                *env.table,
                element,
                id@,
                iterable,
                condition,
                range,
                scope,
                at,
            );
        },
        Expr::FnCall { path, args } => {
            law_call_keeps(
                low,
                *env.table,
                *env.host_fns,
                path@,
                args@,
                range,
                scope,
                at,
            );
        },
        _ => {},
    }
}

} // verus!

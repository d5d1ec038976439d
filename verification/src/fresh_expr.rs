//! Every lowered expression has slots of its own.

use vstd::prelude::*;

use crate::ast::{plain_name, CallArg, Expr, Node, TokenKey, TokenRange};
use crate::calls::{
    branded_call, closure_args, first_applied, fn_call, free_call, fused_forms, hof_kind,
    local_closure_call, math_forms, method_call, method_hof, plain_call, routine_args,
    routine_called, routine_method, CallLowering, SpecialCall,
};
use crate::error::ErrorView;
use crate::expr::{expr_lowered, ExprEnv, ExprLowering};
use crate::fragment::{let_get, FragmentView, LeafLowering, Scope, SigView, SlotsView, SubLowering};
use crate::fresh::{
    fresh, fresh_maybe, fresh_since, freshening, freshly, group_owned, one_typed, op_owned, owned,
    passes,
};
use crate::fresh_calls::{
    law_comprehension_is_fresh, law_hof_method_is_fresh, law_list_calls_are_fresh,
    law_type_constant_is_fresh,
};
use crate::fresh_lists::{law_literal_list_is_fresh, law_range_value_is_fresh};
use crate::fresh_match::law_match_is_fresh;
use crate::fresh_ranges::law_range_calls_are_fresh;
use crate::fresh_reads::{law_reference_is_fresh, law_variable_is_fresh};
use crate::fresh_records::{freshening_records, law_leaf_record_lowering_is_fresh};
use crate::ir::{IrType, TaggedOpView};
use crate::list_calls::type_const;
use crate::list_literal::{computed_list, const_list, SpreadView};
use crate::materialize::LiteralKind;
use crate::names::{name_index, NameTable};
use crate::native_import::{cap_checks, native_args, native_call, HostFnEntry};
use crate::stdlib::StdlibTable;

verus! {

broadcast use group_owned;

/// What the lowering of calls asks for has slots of its own.
pub open spec fn freshening_calls<L: CallLowering>(low: L) -> bool {
    &&& freshening_records(low)
    &&& forall|
        which: SpecialCall,
        path: Seq<TokenKey>,
        args: Seq<CallArg>,
        range: TokenRange,
        scope: Scope<'_>,
        at: SlotsView,
    |
        fresh_maybe(at, #[trigger] low.special(which, path, args, range, scope, at))
    &&& forall|
        routine: Seq<char>,
        index: int,
        value: Node,
        lowered: Result<FragmentView, ErrorView>,
        params: Seq<IrType>,
        range: TokenRange,
        scope: Scope<'_>,
        at: SlotsView,
    |
        fresh(at, lowered) ==> fresh(at, #[trigger] low.stdlib_arg(
            routine,
            index,
            value,
            lowered,
            params,
            range,
            scope,
            at,
        ))
    &&& forall|segments: Seq<TokenKey>, range: TokenRange, scope: Scope<'_>, at: SlotsView|
        (#[trigger] low.receiver(segments, range, scope, at)) matches Ok((f, _))
            ==> fresh_since(at, at, f)
    &&& forall|
        brand: Seq<char>,
        method: Seq<char>,
        args: Seq<CallArg>,
        range: TokenRange,
        scope: Scope<'_>,
        at: SlotsView,
    |
        (#[trigger] low.schema_call(brand, method, args, range, scope, at)) matches Some(r)
            ==> fresh(at, r)
    &&& forall|ty: IrType, range: TokenRange, at: SlotsView|
        fresh(at, #[trigger] low.rendered(ty, range, at))
}

/// What the lowering of expressions asks for has slots of its own.
pub open spec fn freshening_exprs<L: ExprLowering>(low: L) -> bool {
    &&& freshening_calls(low)
    &&& forall|expr: Expr, range: TokenRange, scope: Scope<'_>, at: SlotsView|
        fresh(at, #[trigger] low.composite(expr, range, scope, at))
    &&& forall|items: Seq<Node>, range: TokenRange, scope: Scope<'_>, at: SlotsView|
        (#[trigger] low.spread(items, range, scope, at)) matches Some(Ok(SpreadView::Done(f)))
            ==> fresh_since(at, at, f)
}

/// The lowering of leaf expressions has slots of its own in all that is asked of it.
pub proof fn law_leaf_expr_lowering_is_fresh()
    ensures
        freshening_exprs(LeafLowering),
{
    law_leaf_record_lowering_is_fresh();
}

// ---------------------------------------------------------------------------
// Closures and host functions.
// ---------------------------------------------------------------------------

proof fn lemma_closure_args_are_fresh<L: CallLowering>(
    low: L,
    name: Seq<char>,
    sig: SigView,
    args: Seq<CallArg>,
    range: TokenRange,
    scope: Scope<'_>,
    done: Seq<TaggedOpView>,
    first: SlotsView,
    at: SlotsView,
    from: int,
)
    requires
        freshening_calls(low),
        passes(first, at),
        owned(done, first, at),
        at.lets < u32::MAX ==> one_typed(done),
    ensures
        freshly(first, at, closure_args(low, name, sig, args, range, scope, done, at, from)),
    decreases args.len() - from,
{
    if 0 <= from < args.len() {
        match low.lowered(args[from].value, scope, at) {
            Err(_) => {},
            Ok(f) => match f.ty {
                None => {},
                Some(got) => {
                    assert(fresh_since(at, at, f));
                    let more = done + f.ops;
                    lemma_closure_args_are_fresh(
                        low,
                        name,
                        sig,
                        args,
                        range,
                        scope,
                        more,
                        first,
                        f.slots,
                        from + 1,
                    );
                    match low.rendered(got, args[from].value.range, f.slots) {
                        Err(_) => {},
                        Ok(text) => {
                            assert(fresh_since(f.slots, f.slots, text));
                            lemma_closure_args_are_fresh(
                                low,
                                name,
                                sig,
                                args,
                                range,
                                scope,
                                more + text.ops,
                                first,
                                text.slots,
                                from + 1,
                            );
                        },
                    }
                },
            },
        }
    }
}

/// The call of a local closure has slots of its own.
pub proof fn law_local_closure_call_is_fresh<L: CallLowering>(
    low: L,
    path: Seq<TokenKey>,
    args: Seq<CallArg>,
    range: TokenRange,
    scope: Scope<'_>,
    at: SlotsView,
)
    requires
        freshening_calls(low),
    ensures
        fresh_maybe(at, local_closure_call(low, path, args, range, scope, at)),
{
    match local_closure_call(low, path, args, range, scope, at) {
        Ok(Some(f)) => {
            let name = plain_name(path)->0;
            let b = scope.find(name)->0;
            let sig = *b.closure->0;
            let head = seq![let_get(b.idx, IrType::Closure, range)];
            lemma_closure_args_are_fresh(low, name, sig@, args, range, scope, head, at, at, 0);
            assert(op_owned(f.ops.last(), at, f.slots));
        },
        _ => {},
    }
}

proof fn lemma_native_args_are_fresh<L: SubLowering>(
    low: L,
    name: Seq<char>,
    args: Seq<CallArg>,
    tys: Seq<IrType>,
    range: TokenRange,
    scope: Scope<'_>,
    at: SlotsView,
)
    requires
        freshening(low),
    ensures
        fresh(at, native_args(low, name, args, tys, range, scope, at)),
    decreases args.len(),
{
    if args.len() > 0 {
        lemma_native_args_are_fresh(low, name, args.drop_last(), tys, range, scope, at);
    }
}

/// The call of a host function has slots of its own.
pub proof fn law_native_call_is_fresh<L: SubLowering>(
    low: L,
    resolved: NameTable<HostFnEntry>,
    name: Seq<char>,
    args: Seq<CallArg>,
    range: TokenRange,
    scope: Scope<'_>,
    at: SlotsView,
)
    requires
        freshening(low),
    ensures
        fresh_maybe(at, native_call(low, resolved, name, args, range, scope, at)),
{
    match name_index(resolved.entries@, name, 0) {
        None => {},
        Some(i) => {
            let entry = resolved.entries@[i].1@;
            lemma_native_args_are_fresh(low, name, args, entry.param_tys, range, scope, at);
            match native_call(low, resolved, name, args, range, scope, at) {
                Ok(Some(f)) => {
                    assert(owned(cap_checks(entry.required_bits, range), at, f.slots));
                    assert(op_owned(f.ops.last(), at, f.slots));
                },
                _ => {},
            }
        },
    }
}

// ---------------------------------------------------------------------------
// Routines and methods.
// ---------------------------------------------------------------------------

proof fn lemma_routine_args_are_fresh<L: CallLowering>(
    low: L,
    method: Seq<char>,
    routine: Seq<char>,
    params: Seq<IrType>,
    shift: int,
    args: Seq<CallArg>,
    range: TokenRange,
    scope: Scope<'_>,
    done: Seq<TaggedOpView>,
    first: SlotsView,
    at: SlotsView,
    from: int,
)
    requires
        freshening_calls(low),
        passes(first, at),
        owned(done, first, at),
        at.lets < u32::MAX ==> one_typed(done),
    ensures
        freshly(
            first,
            at,
            routine_args(
                low,
                method,
                routine,
                params,
                shift,
                args,
                range,
                scope,
                done,
                at,
                from,
            ),
        ),
    decreases args.len() - from,
{
    if 0 <= from < args.len() {
        let value = args[from].value;
        let lowered = low.lowered(value, scope, at);
        match low.stdlib_arg(routine, from + shift, value, lowered, params, range, scope, at) {
            Err(_) => {},
            Ok(f) => {
                assert(fresh_since(at, at, f));
                lemma_routine_args_are_fresh(
                    low,
                    method,
                    routine,
                    params,
                    shift,
                    args,
                    range,
                    scope,
                    done + f.ops,
                    first,
                    f.slots,
                    from + 1,
                );
            },
        }
    }
}

proof fn lemma_routine_called_is_fresh(
    table: StdlibTable,
    index: int,
    arity: int,
    operands: Result<FragmentView, ErrorView>,
    range: TokenRange,
    first: SlotsView,
    at: SlotsView,
)
    requires
        freshly(first, at, operands),
    ensures
        freshly(first, at, routine_called(table, index, arity, operands, range)),
{
    match routine_called(table, index, arity, operands, range) {
        Ok(f) => {
            assert(op_owned(f.ops.last(), first, f.slots));
        },
        Err(_) => {},
    }
}

/// A call by a bare name has slots of its own.
pub proof fn law_free_call_is_fresh<L: CallLowering>(
    low: L,
    table: StdlibTable,
    resolved: NameTable<HostFnEntry>,
    name: Seq<char>,
    args: Seq<CallArg>,
    range: TokenRange,
    scope: Scope<'_>,
    at: SlotsView,
)
    requires
        freshening_calls(low),
    ensures
        fresh(at, free_call(low, table, resolved, name, args, range, scope, at)),
{
    law_native_call_is_fresh(low, resolved, name, args, range, scope, at);
    match table.index_of(name) {
        None => {},
        Some(i) => {
            let entry = table.entries@[i];
            let none = Seq::<TaggedOpView>::empty();
            let operands = routine_args(
                low,
                name,
                entry.name@,
                entry.params@,
                0,
                args,
                range,
                scope,
                none,
                at,
                0,
            );
            lemma_routine_args_are_fresh(
                low,
                name,
                entry.name@,
                entry.params@,
                0,
                args,
                range,
                scope,
                none,
                at,
                at,
                0,
            );
            lemma_routine_called_is_fresh(table, i, args.len() as int, operands, range, at, at);
        },
    }
}

/// A method call has slots of its own.
pub proof fn law_method_call_is_fresh<L: CallLowering>(
    low: L,
    table: StdlibTable,
    segments: Seq<TokenKey>,
    name: Seq<char>,
    args: Seq<CallArg>,
    range: TokenRange,
    scope: Scope<'_>,
    at: SlotsView,
)
    requires
        freshening_calls(low),
    ensures
        fresh(at, method_call(low, table, segments, name, args, range, scope, at)),
{
    match low.receiver(segments, range, scope, at) {
        Err(_) => {},
        Ok((f, brand)) => match f.ty {
            None => {},
            Some(ty) => {
                assert(fresh_since(at, at, f));
                match branded_call(low, brand, name, args, range, scope, f.slots) {
                    Some(rest) => {
                        assert(fresh(f.slots, rest));
                    },
                    None => {},
                }
                match hof_kind(name) {
                    Some(kind) => {
                        if args.len() == 1 {
                            law_hof_method_is_fresh(
                                low,
                                table,
                                kind,
                                ty,
                                args[0].value,
                                range,
                                scope,
                                f.slots,
                            );
                        }
                    },
                    None => {},
                }
                assert(fresh_maybe(
                    f.slots,
                    method_hof(low, table, ty, name, args, range, scope, f.slots),
                ));
                match low.method_index(ty, name) {
                    None => {},
                    Some(i) => {
                        let entry = table.entries@[i as int];
                        let operands = routine_args(
                            low,
                            name,
                            entry.name@,
                            entry.params@,
                            1,
                            args,
                            range,
                            scope,
                            f.ops,
                            f.slots,
                            0,
                        );
                        lemma_routine_args_are_fresh(
                            low,
                            name,
                            entry.name@,
                            entry.params@,
                            1,
                            args,
                            range,
                            scope,
                            f.ops,
                            at,
                            f.slots,
                            0,
                        );
                        let arity = (1 + args.len()) as int;
                        lemma_routine_called_is_fresh(
                            table,
                            i as int,
                            arity,
                            operands,
                            range,
                            at,
                            f.slots,
                        );
                    },
                }
                assert(freshly(
                    at,
                    f.slots,
                    routine_method(low, table, f, ty, name, args, range, scope),
                ));
            },
        },
    }
}

proof fn lemma_first_applied_is_fresh(
    attempts: Seq<Result<Option<FragmentView>, ErrorView>>,
    at: SlotsView,
    from: int,
)
    requires
        forall|i: int| 0 <= i < attempts.len() ==> fresh_maybe(at, #[trigger] attempts[i]),
    ensures
        fresh_maybe(at, first_applied(attempts, from)),
    decreases attempts.len() - from,
{
    if 0 <= from < attempts.len() {
        lemma_first_applied_is_fresh(attempts, at, from + 1);
    }
}

#[verifier::rlimit(40)]
proof fn lemma_fused_forms_are_fresh<L: CallLowering>(
    low: L,
    table: StdlibTable,
    path: Seq<TokenKey>,
    args: Seq<CallArg>,
    range: TokenRange,
    scope: Scope<'_>,
    at: SlotsView,
)
    requires
        freshening_calls(low),
    ensures
        fresh_maybe(
            at,
            first_applied(fused_forms(low, table, path, args, range, scope, at), 0),
        ),
{
    law_local_closure_call_is_fresh(low, path, args, range, scope, at);
    law_range_calls_are_fresh(low, path, args, range, scope, at);
    law_list_calls_are_fresh(low, table, path, args, range, scope, at);
    law_range_value_is_fresh(low, path, args, range, scope, at);
    let forms = fused_forms(low, table, path, args, range, scope, at);
    assert forall|i: int| 0 <= i < forms.len() implies fresh_maybe(at, #[trigger] forms[i]) by {
        assert(fresh_maybe(at, low.special(SpecialCall::Count, path, args, range, scope, at)));
        assert(fresh_maybe(at, low.special(SpecialCall::Quantifier, path, args, range, scope, at)));
        assert(fresh_maybe(at, low.special(SpecialCall::Unique, path, args, range, scope, at)));
    }
    lemma_first_applied_is_fresh(forms, at, 0);
}

proof fn lemma_plain_call_is_fresh<L: CallLowering>(
    low: L,
    table: StdlibTable,
    resolved: NameTable<HostFnEntry>,
    path: Seq<TokenKey>,
    args: Seq<CallArg>,
    range: TokenRange,
    scope: Scope<'_>,
    at: SlotsView,
)
    requires
        freshening_calls(low),
    ensures
        fresh(at, plain_call(low, table, resolved, path, args, range, scope, at)),
{
    match path.last() {
        TokenKey::String(name, _, _) => {
            let forms = math_forms(low, path, args, range, scope, at);
            assert(fresh_maybe(at, first_applied(forms, 0))) by {
                assert(fresh_maybe(
                    at,
                    low.special(SpecialCall::ScalarMath, path, args, range, scope, at),
                ));
                assert(fresh_maybe(
                    at,
                    low.special(SpecialCall::PredicateMath, path, args, range, scope, at),
                ));
                assert(fresh_maybe(
                    at,
                    low.special(SpecialCall::SizeInRange, path, args, range, scope, at),
                ));
                lemma_first_applied_is_fresh(forms, at, 0);
            }
            law_free_call_is_fresh(low, table, resolved, name@, args, range, scope, at);
            law_method_call_is_fresh(low, table, path.drop_last(), name@, args, range, scope, at);
        },
        _ => {},
    }
}

/// A call has slots of its own.
pub proof fn law_call_is_fresh<L: CallLowering>(
    low: L,
    table: StdlibTable,
    resolved: NameTable<HostFnEntry>,
    path: Seq<TokenKey>,
    args: Seq<CallArg>,
    range: TokenRange,
    scope: Scope<'_>,
    at: SlotsView,
)
    requires
        freshening_calls(low),
    ensures
        fresh(at, fn_call(low, table, resolved, path, args, range, scope, at)),
{
    lemma_fused_forms_are_fresh(low, table, path, args, range, scope, at);
    law_type_constant_is_fresh(low, path, args, range, scope, at);
    lemma_plain_call_is_fresh(low, table, resolved, path, args, range, scope, at);
    let fused = first_applied(fused_forms(low, table, path, args, range, scope, at), 0);
    let named = type_const(low, path, args, range, scope, at);
    match (fused, named) {
        (Ok(None), Ok(Some(f))) => {
            assert(fresh_since(at, at, f));
        },
        _ => {},
    }
}

// ---------------------------------------------------------------------------
// Expressions.
// ---------------------------------------------------------------------------

proof fn lemma_computed_list_is_fresh<L: SubLowering>(
    low: L,
    word: Seq<char>,
    items: Seq<Node>,
    range: TokenRange,
    scope: Scope<'_>,
    at: SlotsView,
)
    requires
        freshening(low),
    ensures
        fresh(at, computed_list(low, word, items, range, scope, at)),
{
    law_literal_list_is_fresh(low, LiteralKind::Float, items, range, scope, at);
    law_literal_list_is_fresh(low, LiteralKind::Int, items, range, scope, at);
}

proof fn lemma_const_list_is_fresh(items: Seq<Node>, range: TokenRange, at: SlotsView)
    ensures
        fresh(at, const_list(items, range, at)),
{
    match const_list(items, range, at) {
        Err(_) => {},
        Ok(f) => {
            assert(op_owned(f.ops[0], at, f.slots));
        },
    }
}

/// Every expression that is lowered sets, allocates and numbers only what is
/// handed out while it is lowered, and sets no let slot under two types, where
/// the expressions in it do.
pub proof fn law_expression_is_fresh<L: ExprLowering>(
    low: L,
    env: ExprEnv<'_>,
    expr: Expr,
    range: TokenRange,
    scope: Scope<'_>,
    at: SlotsView,
)
    requires
        freshening_exprs(low),
    ensures
        fresh(at, expr_lowered(low, env, expr, range, scope, at)),
{
    match expr {
        Expr::List(items) => {
            lemma_computed_list_is_fresh(low, "computed"@, items@, range, scope, at);
            lemma_const_list_is_fresh(items@, range, at);
            match low.spread(items@, range, scope, at) {
                Some(Ok(SpreadView::Flat(flat))) => {
                    lemma_computed_list_is_fresh(low, "spread"@, flat, range, scope, at);
                },
                _ => {},
            }
        },
        Expr::Variable(path) => {
            law_variable_is_fresh(low, env.frame, path@, range, scope, at);
        },
        Expr::Reference { base, path } => {
            law_reference_is_fresh(base, path@, range, scope, at);
        },
        Expr::Match { expr: scrutinee, arms } => {
            law_match_is_fresh(
                low,
                env.frame,
                scrutinee,
                arms@,
                env.builtins@,
                range,
                scope,
                at,
            );
        },
        Expr::Comprehension { element, id, iterable, condition } => {
            law_comprehension_is_fresh(
                low,
                *env.table,
                element,
                id@,
                iterable,
                condition,
                range,
                scope,
                at,
            );
        },
        Expr::FnCall { path, args } => {
            law_call_is_fresh(
                low,
                *env.table,
                *env.host_fns,
                path@,
                args@,
                range,
                scope,
                at,
            );
        },
        _ => {},
    }
}

} // verus!

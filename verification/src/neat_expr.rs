//! Every lowered expression leaves exactly one value.

use vstd::prelude::*;

use crate::ast::{plain_name, CallArg, Expr, Node, TokenKey, TokenRange};
use crate::calls::{
    branded_call, closure_args, first_applied, fn_call, free_call, fused_forms, hof_kind,
    local_closure_call, math_forms, method_call, method_hof, plain_call, routine_args,
    routine_called, routine_method, CallLowering, SpecialCall,
};
use crate::error::ErrorView;
use crate::expr::{expr_fits, expr_lowered, ExprEnv, ExprLowering};
use crate::fragment::{let_get, FragmentView, LeafLowering, Scope, SigView, SlotsView, SubLowering};
use crate::ir::{sop, IrType, SimpleOp, TaggedOpView};
use crate::list_calls::type_const;
use crate::list_literal::{computed_list, const_list, SpreadView};
use crate::materialize::LiteralKind;
use crate::names::{name_index, NameTable};
use crate::native_import::{cap_checks, native_args, native_call, HostFnEntry};
use crate::neat_calls::{
    law_comprehension_is_neat, law_hof_method_is_neat, law_list_calls_are_neat,
    law_type_constant_is_neat,
};
use crate::neat_lists::{law_literal_list_is_neat, law_range_value_is_neat};
use crate::neat_match::law_match_is_neat;
use crate::neat_ranges::law_range_calls_are_neat;
use crate::neat_reads::{law_reference_is_neat, law_variable_is_neat};
use crate::neat_records::{law_leaf_record_lowering_is_neat, neat_record_lowering};
use crate::stack::{
    group_tally, neat, neat_lowering, neat_maybe, neat_maybe_suffix, neat_outcome, neat_suffix,
    neat_value, op_tally, passing, settles, tally,
};
use crate::stdlib::StdlibTable;

verus! {

broadcast use group_tally;

/// The instructions leave `n` values.
pub open spec fn leaves(ops: Seq<TaggedOpView>, n: int) -> bool {
    forall|labels: nat| settles(#[trigger] tally(ops, labels), 0, n)
}

/// What the lowering of calls asks for is neat.
pub open spec fn neat_call_lowering<L: CallLowering>(low: L) -> bool {
    &&& neat_record_lowering(low)
    &&& forall|
        which: SpecialCall,
        path: Seq<TokenKey>,
        args: Seq<CallArg>,
        range: TokenRange,
        scope: Scope<'_>,
        at: SlotsView,
    |
        neat_maybe(#[trigger] low.special(which, path, args, range, scope, at))
    &&& forall|
        routine: Seq<char>,
        index: int,
        value: Node,
        lowered: Result<FragmentView, ErrorView>,
        params: Seq<IrType>,
        range: TokenRange,
        scope: Scope<'_>,
        at: SlotsView,
    |
        neat_outcome(lowered) ==> neat_value(#[trigger] low.stdlib_arg(
            routine,
            index,
            value,
            lowered,
            params,
            range,
            scope,
            at,
        ))
    &&& forall|segments: Seq<TokenKey>, range: TokenRange, scope: Scope<'_>, at: SlotsView|
        (#[trigger] low.receiver(segments, range, scope, at)) matches Ok((f, _)) ==> neat(f)
    &&& forall|
        brand: Seq<char>,
        method: Seq<char>,
        args: Seq<CallArg>,
        range: TokenRange,
        scope: Scope<'_>,
        at: SlotsView,
    |
        (#[trigger] low.schema_call(brand, method, args, range, scope, at)) matches Some(r)
            ==> neat_suffix(r)
    &&& forall|ty: IrType, range: TokenRange, at: SlotsView|
        neat_suffix(#[trigger] low.rendered(ty, range, at))
}

/// What the lowering of expressions asks for is neat.
pub open spec fn neat_expr_lowering<L: ExprLowering>(low: L) -> bool {
    &&& neat_call_lowering(low)
    &&& forall|expr: Expr, range: TokenRange, scope: Scope<'_>, at: SlotsView|
        neat_outcome(#[trigger] low.composite(expr, range, scope, at))
    &&& forall|items: Seq<Node>, range: TokenRange, scope: Scope<'_>, at: SlotsView|
        (#[trigger] low.spread(items, range, scope, at)) matches Some(Ok(SpreadView::Done(f)))
            ==> neat(f)
}

/// The lowering of leaf expressions is neat in all that is asked of it.
pub proof fn law_leaf_expr_lowering_is_neat()
    ensures
        neat_expr_lowering(LeafLowering),
{
    law_leaf_record_lowering_is_neat();
    assert forall|segments: Seq<TokenKey>, range: TokenRange, scope: Scope<'_>, at: SlotsView|
        (#[trigger] LeafLowering.receiver(segments, range, scope, at)) matches Ok((f, _))
            ==> neat(f) by {
        match LeafLowering.receiver(segments, range, scope, at) {
            Ok((f, _)) => {
                let op = f.ops[0];
                assert(f.ops =~= seq![op]);
                assert forall|labels: nat| settles(#[trigger] tally(f.ops, labels), 0, 1) by {
                    assert(op_tally(op, labels) == passing(0, 1));
                }
            },
            Err(_) => {},
        }
    }
}

// ---------------------------------------------------------------------------
// Closures and host functions.
// ---------------------------------------------------------------------------

proof fn lemma_closure_args_leave<L: CallLowering>(
    low: L,
    name: Seq<char>,
    sig: SigView,
    args: Seq<CallArg>,
    range: TokenRange,
    scope: Scope<'_>,
    done: Seq<TaggedOpView>,
    at: SlotsView,
    from: int,
)
    requires
        neat_call_lowering(low),
        0 <= from <= args.len(),
        leaves(done, 1 + from),
    ensures
        closure_args(low, name, sig, args, range, scope, done, at, from) matches Ok(f) ==> leaves(
            f.ops,
            (1 + args.len()) as int,
        ),
    decreases args.len() - from,
{
    if from < args.len() {
        match low.lowered(args[from].value, scope, at) {
            Err(_) => {},
            Ok(f) => match f.ty {
                None => {},
                Some(got) => {
                    let more = done + f.ops;
                    assert forall|labels: nat| settles(
                        #[trigger] tally(more, labels),
                        0,
                        2 + from,
                    ) by {
                        assert(settles(tally(done, labels), 0, 1 + from));
                        assert(settles(tally(f.ops, labels), 0, 1));
                    }
                    lemma_closure_args_leave(
                        low,
                        name,
                        sig,
                        args,
                        range,
                        scope,
                        more,
                        f.slots,
                        from + 1,
                    );
                    match low.rendered(got, args[from].value.range, f.slots) {
                        Err(_) => {},
                        Ok(text) => {
                            let shown = more + text.ops;
                            assert forall|labels: nat| settles(
                                #[trigger] tally(shown, labels),
                                0,
                                2 + from,
                            ) by {
                                assert(settles(tally(more, labels), 0, 2 + from));
                                assert(settles(tally(text.ops, labels), 1, 1));
                            }
                            lemma_closure_args_leave(
                                low,
                                name,
                                sig,
                                args,
                                range,
                                scope,
                                shown,
                                text.slots,
                                from + 1,
                            );
                        },
                    }
                },
            },
        }
    }
}

/// The call of a local closure leaves its result and nothing else.
pub proof fn law_local_closure_call_is_neat<L: CallLowering>(
    low: L,
    path: Seq<TokenKey>,
    args: Seq<CallArg>,
    range: TokenRange,
    scope: Scope<'_>,
    at: SlotsView,
)
    requires
        neat_call_lowering(low),
    ensures
        neat_maybe(local_closure_call(low, path, args, range, scope, at)),
{
    match local_closure_call(low, path, args, range, scope, at) {
        Ok(Some(f)) => {
            let name = plain_name(path)->0;
            let b = scope.find(name)->0;
            let sig = *b.closure->0;
            let head = seq![let_get(b.idx, IrType::Closure, range)];
            assert(leaves(head, 1));
            lemma_closure_args_leave(low, name, sig@, args, range, scope, head, at, 0);
            let operands = closure_args(low, name, sig@, args, range, scope, head, at, 0)->Ok_0;
            assert forall|labels: nat| settles(#[trigger] tally(f.ops, labels), 0, 1) by {
                assert(settles(tally(operands.ops, labels), 0, (1 + args.len()) as int));
            }
        },
        _ => {},
    }
}

proof fn lemma_cap_checks(bits: Seq<u32>, range: TokenRange, labels: nat)
    ensures
        tally(cap_checks(bits, range), labels) == passing(0, 0),
    decreases bits.len(),
{
    if bits.len() == 0 {
        assert(cap_checks(bits, range) =~= Seq::empty());
    } else {
        lemma_cap_checks(bits.drop_last(), range, labels);
        assert(cap_checks(bits, range) =~= cap_checks(bits.drop_last(), range).push(
            sop(SimpleOp::CheckCap { cap_bit: bits.last() }, range),
        ));
    }
}

proof fn lemma_native_args_leave<L: SubLowering>(
    low: L,
    name: Seq<char>,
    args: Seq<CallArg>,
    tys: Seq<IrType>,
    range: TokenRange,
    scope: Scope<'_>,
    at: SlotsView,
)
    requires
        neat_lowering(low),
    ensures
        native_args(low, name, args, tys, range, scope, at) matches Ok(f) ==> leaves(
            f.ops,
            args.len() as int,
        ),
    decreases args.len(),
{
    if args.len() > 0 {
        lemma_native_args_leave(low, name, args.drop_last(), tys, range, scope, at);
        match native_args(low, name, args.drop_last(), tys, range, scope, at) {
            Err(_) => {},
            Ok(pre) => match (
                low.lowered(args.last().value, scope, pre.slots),
                native_args(low, name, args, tys, range, scope, at),
            ) {
                (Ok(v), Ok(f)) => {
                    assert forall|labels: nat| settles(
                        #[trigger] tally(f.ops, labels),
                        0,
                        args.len() as int,
                    ) by {
                        assert(settles(tally(pre.ops, labels), 0, args.len() - 1));
                        assert(settles(tally(v.ops, labels), 0, 1));
                    }
                },
                _ => {},
            },
        }
    }
}

/// The call of a host function leaves its result and nothing else.
pub proof fn law_native_call_is_neat<L: SubLowering>(
    low: L,
    resolved: NameTable<HostFnEntry>,
    name: Seq<char>,
    args: Seq<CallArg>,
    range: TokenRange,
    scope: Scope<'_>,
    at: SlotsView,
)
    requires
        neat_lowering(low),
    ensures
        neat_maybe(native_call(low, resolved, name, args, range, scope, at)),
{
    match name_index(resolved.entries@, name, 0) {
        None => {},
        Some(i) => {
            let entry = resolved.entries@[i].1@;
            lemma_native_args_leave(low, name, args, entry.param_tys, range, scope, at);
            match native_call(low, resolved, name, args, range, scope, at) {
                Ok(Some(f)) => {
                    let operands = native_args(
                        low,
                        name,
                        args,
                        entry.param_tys,
                        range,
                        scope,
                        at,
                    )->Ok_0;
                    assert forall|labels: nat| settles(#[trigger] tally(f.ops, labels), 0, 1) by {
                        lemma_cap_checks(entry.required_bits, range, labels);
                        assert(settles(tally(operands.ops, labels), 0, args.len() as int));
                    }
                },
                _ => {},
            }
        },
    }
}

// ---------------------------------------------------------------------------
// Routines and methods.
// ---------------------------------------------------------------------------

proof fn lemma_routine_args_leave<L: CallLowering>(
    low: L,
    method: Seq<char>,
    routine: Seq<char>,
    params: Seq<IrType>,
    shift: int,
    args: Seq<CallArg>,
    range: TokenRange,
    scope: Scope<'_>,
    done: Seq<TaggedOpView>,
    at: SlotsView,
    from: int,
)
    requires
        neat_call_lowering(low),
        0 <= shift,
        0 <= from <= args.len(),
        leaves(done, shift + from),
    ensures
        routine_args(
            low,
            method,
            routine,
            params,
            shift,
            args,
            range,
            scope,
            done,
            at,
            from,
        ) matches Ok(f) ==> leaves(f.ops, shift + args.len()),
    decreases args.len() - from,
{
    if from < args.len() {
        let value = args[from].value;
        let lowered = low.lowered(value, scope, at);
        match low.stdlib_arg(routine, from + shift, value, lowered, params, range, scope, at) {
            Err(_) => {},
            Ok(f) => {
                let more = done + f.ops;
                assert forall|labels: nat| settles(
                    #[trigger] tally(more, labels),
                    0,
                    shift + from + 1,
                ) by {
                    assert(settles(tally(done, labels), 0, shift + from));
                    assert(settles(tally(f.ops, labels), 0, 1));
                }
                lemma_routine_args_leave(
                    low,
                    method,
                    routine,
                    params,
                    shift,
                    args,
                    range,
                    scope,
                    more,
                    f.slots,
                    from + 1,
                );
            },
        }
    }
}

proof fn lemma_routine_called_is_neat(
    table: StdlibTable,
    index: int,
    arity: int,
    operands: Result<FragmentView, ErrorView>,
    range: TokenRange,
)
    requires
        0 <= arity <= u32::MAX,
        operands matches Ok(f) ==> leaves(f.ops, arity),
    ensures
        neat_value(routine_called(table, index, arity, operands, range)),
{
    match (operands, routine_called(table, index, arity, operands, range)) {
        (Ok(all), Ok(f)) => {
            assert forall|labels: nat| settles(#[trigger] tally(f.ops, labels), 0, 1) by {
                assert(settles(tally(all.ops, labels), 0, arity));
            }
        },
        _ => {},
    }
}

/// A call by a bare name leaves its result and nothing else.
pub proof fn law_free_call_is_neat<L: CallLowering>(
    low: L,
    table: StdlibTable,
    resolved: NameTable<HostFnEntry>,
    name: Seq<char>,
    args: Seq<CallArg>,
    range: TokenRange,
    scope: Scope<'_>,
    at: SlotsView,
)
    requires
        neat_call_lowering(low),
        args.len() < u32::MAX,
    ensures
        neat_outcome(
            free_call(low, table, resolved, name, args, range, scope, at),
        ),
{
    law_native_call_is_neat(low, resolved, name, args, range, scope, at);
    match table.index_of(name) {
        None => {},
        Some(i) => {
            let entry = table.entries@[i];
            assert(leaves(Seq::empty(), 0));
            lemma_routine_args_leave(
                low,
                name,
                entry.name@,
                entry.params@,
                0,
                args,
                range,
                scope,
                Seq::empty(),
                at,
                0,
            );
            lemma_routine_called_is_neat(
                table,
                i,
                args.len() as int,
                routine_args(
                    low,
                    name,
                    entry.name@,
                    entry.params@,
                    0,
                    args,
                    range,
                    scope,
                    Seq::empty(),
                    at,
                    0,
                ),
                range,
            );
        },
    }
}

/// A method call leaves its result and nothing else.
pub proof fn law_method_call_is_neat<L: CallLowering>(
    low: L,
    table: StdlibTable,
    segments: Seq<TokenKey>,
    name: Seq<char>,
    args: Seq<CallArg>,
    range: TokenRange,
    scope: Scope<'_>,
    at: SlotsView,
)
    requires
        neat_call_lowering(low),
        args.len() < u32::MAX,
    ensures
        neat_outcome(method_call(low, table, segments, name, args, range, scope, at)),
{
    match low.receiver(segments, range, scope, at) {
        Err(_) => {},
        Ok((f, brand)) => match f.ty {
            None => {},
            Some(ty) => {
                assert(leaves(f.ops, 1));
                match branded_call(low, brand, name, args, range, scope, f.slots) {
                    Some(rest) => {
                        assert(neat_suffix(rest));
                    },
                    None => {},
                }
                match hof_kind(name) {
                    Some(kind) => {
                        if args.len() == 1 {
                            law_hof_method_is_neat(
                                low,
                                table,
                                kind,
                                ty,
                                args[0].value,
                                range,
                                scope,
                                f.slots,
                            );
                        }
                    },
                    None => {},
                }
                assert(neat_maybe_suffix(
                    method_hof(low, table, ty, name, args, range, scope, f.slots),
                ));
                match low.method_index(ty, name) {
                    None => {},
                    Some(i) => {
                        let entry = table.entries@[i as int];
                        lemma_routine_args_leave(
                            low,
                            name,
                            entry.name@,
                            entry.params@,
                            1,
                            args,
                            range,
                            scope,
                            f.ops,
                            f.slots,
                            0,
                        );
                        lemma_routine_called_is_neat(
                            table,
                            i as int,
                            (1 + args.len()) as int,
                            routine_args(
                                low,
                                name,
                                entry.name@,
                                entry.params@,
                                1,
                                args,
                                range,
                                scope,
                                f.ops,
                                f.slots,
                                0,
                            ),
                            range,
                        );
                    },
                }
                assert(neat_outcome(
                    routine_method(low, table, f, ty, name, args, range, scope),
                ));
            },
        },
    }
}

proof fn lemma_first_applied_is_neat(
    attempts: Seq<Result<Option<FragmentView>, ErrorView>>,
    from: int,
)
    requires
        forall|i: int| 0 <= i < attempts.len() ==> neat_maybe(#[trigger] attempts[i]),
    ensures
        neat_maybe(first_applied(attempts, from)),
    decreases attempts.len() - from,
{
    if 0 <= from < attempts.len() {
        lemma_first_applied_is_neat(attempts, from + 1);
    }
}

proof fn lemma_fused_forms_are_neat<L: CallLowering>(
    low: L,
    table: StdlibTable,
    path: Seq<TokenKey>,
    args: Seq<CallArg>,
    range: TokenRange,
    scope: Scope<'_>,
    at: SlotsView,
)
    requires
        neat_call_lowering(low),
    ensures
        neat_maybe(first_applied(fused_forms(low, table, path, args, range, scope, at), 0)),
{
    law_local_closure_call_is_neat(low, path, args, range, scope, at);
    law_range_calls_are_neat(low, path, args, range, scope, at);
    law_list_calls_are_neat(low, table, path, args, range, scope, at);
    law_range_value_is_neat(low, path, args, range, scope, at);
    let forms = fused_forms(low, table, path, args, range, scope, at);
    assert forall|i: int| 0 <= i < forms.len() implies neat_maybe(#[trigger] forms[i]) by {
        assert(neat_maybe(low.special(SpecialCall::Count, path, args, range, scope, at)));
        assert(neat_maybe(low.special(SpecialCall::Quantifier, path, args, range, scope, at)));
        assert(neat_maybe(low.special(SpecialCall::Unique, path, args, range, scope, at)));
    }
    lemma_first_applied_is_neat(forms, 0);
}

proof fn lemma_plain_call_is_neat<L: CallLowering>(
    low: L,
    table: StdlibTable,
    resolved: NameTable<HostFnEntry>,
    path: Seq<TokenKey>,
    args: Seq<CallArg>,
    range: TokenRange,
    scope: Scope<'_>,
    at: SlotsView,
)
    requires
        neat_call_lowering(low),
        args.len() < u32::MAX,
    ensures
        neat_outcome(
            plain_call(low, table, resolved, path, args, range, scope, at),
        ),
{
    match path.last() {
        TokenKey::String(name, _, _) => {
            let forms = math_forms(low, path, args, range, scope, at);
            assert(neat_maybe(first_applied(forms, 0))) by {
                assert(neat_maybe(
                    low.special(SpecialCall::ScalarMath, path, args, range, scope, at),
                ));
                assert(neat_maybe(
                    low.special(SpecialCall::PredicateMath, path, args, range, scope, at),
                ));
                assert(neat_maybe(
                    low.special(SpecialCall::SizeInRange, path, args, range, scope, at),
                ));
                lemma_first_applied_is_neat(forms, 0);
            }
            if path.len() == 1 {
                law_free_call_is_neat(
                    low,
                    table,
                    resolved,
                    name@,
                    args,
                    range,
                    scope,
                    at,
                );
            } else {
                law_method_call_is_neat(
                    low,
                    table,
                    path.drop_last(),
                    name@,
                    args,
                    range,
                    scope,
                    at,
                );
            }
        },
        _ => {},
    }
}

/// A call leaves its result and nothing else.
pub proof fn law_call_is_neat<L: CallLowering>(
    low: L,
    table: StdlibTable,
    resolved: NameTable<HostFnEntry>,
    path: Seq<TokenKey>,
    args: Seq<CallArg>,
    range: TokenRange,
    scope: Scope<'_>,
    at: SlotsView,
)
    requires
        neat_call_lowering(low),
        args.len() < u32::MAX,
    ensures
        neat_outcome(
            fn_call(low, table, resolved, path, args, range, scope, at),
        ),
{
    lemma_fused_forms_are_neat(low, table, path, args, range, scope, at);
    law_type_constant_is_neat(low, path, args, range, scope, at);
    lemma_plain_call_is_neat(
        low,
        table,
        resolved,
        path,
        args,
        range,
        scope,
        at,
    );
    let fused = first_applied(fused_forms(low, table, path, args, range, scope, at), 0);
    let named = type_const(low, path, args, range, scope, at);
    assert(neat_maybe(fused));
    match (fused, named) {
        (Ok(None), Ok(Some(f))) => {
            assert(neat(f));
        },
        _ => {},
    }
}

// ---------------------------------------------------------------------------
// Expressions.
// ---------------------------------------------------------------------------

proof fn lemma_computed_list_is_neat<L: SubLowering>(
    low: L,
    word: Seq<char>,
    items: Seq<Node>,
    range: TokenRange,
    scope: Scope<'_>,
    at: SlotsView,
)
    requires
        neat_lowering(low),
    ensures
        neat_outcome(computed_list(low, word, items, range, scope, at)),
{
    law_literal_list_is_neat(low, LiteralKind::Float, items, range, scope, at);
    law_literal_list_is_neat(low, LiteralKind::Int, items, range, scope, at);
}

proof fn lemma_const_list_is_neat(items: Seq<Node>, range: TokenRange, at: SlotsView)
    ensures
        neat_outcome(const_list(items, range, at)),
{
    match const_list(items, range, at) {
        Err(_) => {},
        Ok(f) => {
            let op = f.ops[0];
            assert(f.ops =~= seq![op]);
            assert forall|labels: nat| settles(#[trigger] tally(f.ops, labels), 0, 1) by {
                assert(op_tally(op, labels) == passing(0, 1));
            }
        },
    }
}

/// Every expression that is lowered leaves the value of the stated type and
/// nothing else, where the expressions that it contains do.
pub proof fn law_expression_is_neat<L: ExprLowering>(
    low: L,
    env: ExprEnv<'_>,
    expr: Expr,
    range: TokenRange,
    scope: Scope<'_>,
    at: SlotsView,
)
    requires
        neat_expr_lowering(low),
        expr_fits(expr),
    ensures
        neat_outcome(expr_lowered(low, env, expr, range, scope, at)),
{
    match expr {
        Expr::Bool(_) | Expr::Int(_) | Expr::Float(_) => {},
        Expr::String(_) => {},
        Expr::List(items) => {
            lemma_computed_list_is_neat(low, "computed"@, items@, range, scope, at);
            lemma_const_list_is_neat(items@, range, at);
            match low.spread(items@, range, scope, at) {
                Some(Ok(SpreadView::Flat(flat))) => {
                    lemma_computed_list_is_neat(low, "spread"@, flat, range, scope, at);
                },
                _ => {},
            }
        },
        Expr::Variable(path) => {
            law_variable_is_neat(low, env.frame, path@, range, scope, at);
        },
        Expr::Reference { base, path } => {
            law_reference_is_neat(base, path@, range, scope, at);
        },
        Expr::Match { expr: scrutinee, arms } => {
            law_match_is_neat(
                low,
                env.frame,
                scrutinee,
                arms@,
                env.builtins@,
                range,
                scope,
                at,
            );
        },
        Expr::Comprehension { element, id, iterable, condition } => {
            law_comprehension_is_neat(
                low,
                *env.table,
                element,
                id@,
                iterable,
                condition,
                range,
                scope,
                at,
            );
        },
        Expr::FnCall { path, args } => {
            law_call_is_neat(
                low,
                *env.table,
                *env.host_fns,
                path@,
                args@,
                range,
                scope,
                at,
            );
        },
        _ => {},
    }
}

} // verus!

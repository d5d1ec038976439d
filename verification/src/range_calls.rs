//! Calls that consume a `range(..)` pipeline without building its list.
//!
//! Every function here either does not apply, and then answers `Ok(None)`, or
//! answers with the fused loop.

use vstd::prelude::*;

use crate::ast::{
    all_positional, is_key, key_is, positional_only, CallArg, ClosureParam, Expr, Node, TokenKey,
    TokenRange,
};
use crate::chain::{
    bare_range, chain_of, is_sum_call, match_bare_range, match_nested_range_map,
    match_outer_combine, match_range_chain, nested_map, outer_combine, single_map, sum_call,
    ChainStage, RangeChain, StageMethod,
};
use crate::error::{ErrorView, LoweringError};
use crate::fragment::{
    applied, fired, maybe_outcome, Fragment, FragmentView, Scope, Slots, SlotsView, SubLowering,
};
use crate::range_loop::{
    emit_nested_range_map_reduce, emit_range_pipeline_loop, nested_fragment, pipeline_fragment,
    stages_unary, RangeConsumer,
};

verus! {

/// A recognised pipeline has one or two bounds, all positional, and only
/// single-parameter stages.
pub proof fn law_chain_shape(expr: Expr)
    ensures
        chain_of(&expr) matches Some(c) ==> 1 <= c.range_args@.len() <= 2 && all_positional(
            c.range_args@,
        ) && stages_unary(c.stages),
    decreases expr,
{
    match expr {
        Expr::FnCall { path, args } => {
            if path@.len() == 2 {
                match path@[0] {
                    TokenKey::Dynamic(receiver, _) => {
                        law_chain_shape(*receiver.expr);
                    },
                    _ => {},
                }
            }
        },
        _ => {},
    }
}

/// A bare `range(..)` call is exactly a pipeline without stages, and the two
/// recognisers agree on its arguments.
pub proof fn law_bare_range_is_stageless_chain(expr: Expr)
    ensures
        match bare_range(&expr) {
            Some(args) => chain_of(&expr) matches Some(c) && c.range_args == args
                && c.stages.len() == 0,
            None => chain_of(&expr) matches Some(c) ==> c.stages.len() > 0,
        },
{
}

/// The receiver of a method call `receiver.name(..)` on an expression.
pub open spec fn method_receiver<'a>(path: Seq<TokenKey>, name: Seq<char>) -> Option<&'a Node> {
    if path.len() == 2 && key_is(path[1], name) {
        match path[0] {
            TokenKey::Dynamic(node, _) => Some(&node),
            _ => None,
        }
    } else {
        None
    }
}

/// Executable form of [`method_receiver`].
pub fn match_method_receiver<'a>(path: &'a Vec<TokenKey>, name: &str) -> (r: Option<&'a Node>)
    ensures
        r == method_receiver(path@, name@),
{
    if path.len() == 2 && is_key(&path[1], name) {
        match &path[0] {
            TokenKey::Dynamic(node, _) => Some(node),
            _ => None,
        }
    } else {
        None
    }
}

/// The lowering of `list.sum(pipeline)`.
pub open spec fn list_sum_range<L: SubLowering>(
    low: L,
    path: Seq<TokenKey>,
    args: Seq<CallArg>,
    range: TokenRange,
    scope: Scope<'_>,
    at: SlotsView,
) -> Result<Option<FragmentView>, ErrorView> {
    if sum_call(path, args) {
        match chain_of(&*args[0].value.expr) {
            Some(c) => fired(
                pipeline_fragment(
                    low,
                    c.range_args@,
                    c.stages,
                    RangeConsumer::SumI64,
                    range,
                    scope,
                    at,
                ),
            ),
            None => Ok(None),
        }
    } else {
        Ok(None)
    }
}

/// Lowers `list.sum(pipeline)`.
pub fn try_lower_list_sum_range<L: SubLowering>(
    path: &Vec<TokenKey>,
    args: &Vec<CallArg>,
    range: TokenRange,
    scope: &Scope<'_>,
    at: &Slots,
    low: &L,
) -> (r: Result<Option<Fragment>, LoweringError>)
    ensures
        maybe_outcome(r) == list_sum_range(*low, path@, args@, range, *scope, at@),
{
    if !is_sum_call(path, args) {
        return Ok(None);
    }
    match match_range_chain(&*args[0].value.expr) {
        Some(chain) => {
            proof {
                law_chain_shape(*args@[0].value.expr);
            }
            applied(
                emit_range_pipeline_loop(&chain, RangeConsumer::SumI64, range, scope, at, low),
            )
        },
        None => Ok(None),
    }
}

/// The lowering of `pipeline.len()`.
pub open spec fn range_chain_len<L: SubLowering>(
    low: L,
    path: Seq<TokenKey>,
    args: Seq<CallArg>,
    range: TokenRange,
    scope: Scope<'_>,
    at: SlotsView,
) -> Result<Option<FragmentView>, ErrorView> {
    if args.len() != 0 {
        Ok(None)
    } else {
        match method_receiver(path, "len"@) {
            Some(receiver) => match chain_of(&*receiver.expr) {
                Some(c) => fired(
                    pipeline_fragment(
                        low,
                        c.range_args@,
                        c.stages,
                        RangeConsumer::Len,
                        range,
                        scope,
                        at,
                    ),
                ),
                None => Ok(None),
            },
            None => Ok(None),
        }
    }
}

/// Lowers `pipeline.len()`.
pub fn try_lower_range_chain_len<L: SubLowering>(
    path: &Vec<TokenKey>,
    args: &Vec<CallArg>,
    range: TokenRange,
    scope: &Scope<'_>,
    at: &Slots,
    low: &L,
) -> (r: Result<Option<Fragment>, LoweringError>)
    ensures
        maybe_outcome(r) == range_chain_len(*low, path@, args@, range, *scope, at@),
{
    if args.len() != 0 {
        return Ok(None);
    }
    match match_method_receiver(path, "len") {
        Some(receiver) => match match_range_chain(&*receiver.expr) {
            Some(chain) => {
                proof {
                    law_chain_shape(*receiver.expr);
                }
                applied(
                    emit_range_pipeline_loop(&chain, RangeConsumer::Len, range, scope, at, low),
                )
            },
            None => Ok(None),
        },
        None => Ok(None),
    }
}

/// The parameters and body of a two-parameter closure literal.
pub open spec fn fold_closure<'a>(node: Node) -> Option<(&'a Vec<ClosureParam>, &'a Node)> {
    match *node.expr {
        Expr::Closure { params, body, .. } => if params@.len() == 2 {
            Some((&params, &body))
        } else {
            None
        },
        _ => None,
    }
}

/// Executable form of [`fold_closure`].
pub fn match_fold_closure<'a>(node: &'a Node) -> (r: Option<(&'a Vec<ClosureParam>, &'a Node)>)
    ensures
        r == fold_closure(*node),
{
    match &*node.expr {
        Expr::Closure { params, body, .. } => if params.len() == 2 {
            Some((params, body))
        } else {
            None
        },
        _ => None,
    }
}

/// The lowering of `pipeline.reduce(init, (acc, elem) => body)`.
pub open spec fn range_chain_reduce<L: SubLowering>(
    low: L,
    path: Seq<TokenKey>,
    args: Seq<CallArg>,
    range: TokenRange,
    scope: Scope<'_>,
    at: SlotsView,
) -> Result<Option<FragmentView>, ErrorView> {
    if args.len() != 2 || !all_positional(args) {
        Ok(None)
    } else {
        match (method_receiver(path, "reduce"@), fold_closure(args[1].value)) {
            (Some(receiver), Some((params, body))) => match chain_of(&*receiver.expr) {
                Some(c) => fired(
                    pipeline_fragment(
                        low,
                        c.range_args@,
                        c.stages,
                        RangeConsumer::Reduce { init: &args[0].value, params, body },
                        range,
                        scope,
                        at,
                    ),
                ),
                None => Ok(None),
            },
            _ => Ok(None),
        }
    }
}

/// Lowers `pipeline.reduce(init, (acc, elem) => body)`.
pub fn try_lower_range_chain_reduce<L: SubLowering>(
    path: &Vec<TokenKey>,
    args: &Vec<CallArg>,
    range: TokenRange,
    scope: &Scope<'_>,
    at: &Slots,
    low: &L,
) -> (r: Result<Option<Fragment>, LoweringError>)
    ensures
        maybe_outcome(r) == range_chain_reduce(*low, path@, args@, range, *scope, at@),
{
    if args.len() != 2 || !positional_only(args) {
        return Ok(None);
    }
    match (match_method_receiver(path, "reduce"), match_fold_closure(&args[1].value)) {
        (Some(receiver), Some((params, body))) => match match_range_chain(&*receiver.expr) {
            Some(chain) => {
                proof {
                    law_chain_shape(*receiver.expr);
                }
                let consumer = RangeConsumer::Reduce { init: &args[0].value, params, body };
                applied(emit_range_pipeline_loop(&chain, consumer, range, scope, at, low))
            },
            None => Ok(None),
        },
        _ => Ok(None),
    }
}

/// The lowering of a reduction over a doubly nested pipeline, whose body folds
/// every row cell by cell.
pub open spec fn nested_range_map_reduce<L: SubLowering>(
    low: L,
    path: Seq<TokenKey>,
    args: Seq<CallArg>,
    range: TokenRange,
    scope: Scope<'_>,
    at: SlotsView,
) -> Result<Option<FragmentView>, ErrorView> {
    if args.len() != 2 || !all_positional(args) {
        Ok(None)
    } else {
        match (method_receiver(path, "reduce"@), fold_closure(args[1].value)) {
            (Some(receiver), Some((params, body))) => match (
                nested_map(&*receiver.expr),
                outer_combine(*body.expr, params@[0].name@, params@[1].name@),
            ) {
                (Some(shape), Some(combine)) => fired(
                    nested_fragment(low, shape, args[0].value, combine, range, scope, at),
                ),
                _ => Ok(None),
            },
            _ => Ok(None),
        }
    }
}

/// Lowers a reduction over `range(..).map((i) => range(..).map((j) => cell))`.
pub fn try_lower_nested_range_map_reduce<L: SubLowering>(
    path: &Vec<TokenKey>,
    args: &Vec<CallArg>,
    range: TokenRange,
    scope: &Scope<'_>,
    at: &Slots,
    low: &L,
) -> (r: Result<Option<Fragment>, LoweringError>)
    ensures
        maybe_outcome(r) == nested_range_map_reduce(*low, path@, args@, range, *scope, at@),
{
    if args.len() != 2 || !positional_only(args) {
        return Ok(None);
    }
    match (match_method_receiver(path, "reduce"), match_fold_closure(&args[1].value)) {
        (Some(receiver), Some((params, body))) => match (
            match_nested_range_map(&*receiver.expr),
            match_outer_combine(&*body.expr, params[0].name.as_str(), params[1].name.as_str()),
        ) {
            (Some(shape), Some(combine)) => {
                proof {
                    law_chain_shape(*receiver.expr);
                    let outer = single_map(&*receiver.expr)->0;
                    law_chain_shape(*outer.2.expr);
                }
                applied(
                    emit_nested_range_map_reduce(
                        &shape,
                        &args[0].value,
                        &combine,
                        range,
                        scope,
                        at,
                        low,
                    ),
                )
            },
            _ => Ok(None),
        },
        _ => Ok(None),
    }
}

/// `len(..)` or `_len(..)` with one positional argument.
pub open spec fn len_call(path: Seq<TokenKey>, args: Seq<CallArg>) -> bool {
    &&& path.len() == 1
    &&& (key_is(path[0], "_len"@) || key_is(path[0], "len"@))
    &&& args.len() == 1
    &&& args[0].name is None
}

/// Executable form of [`len_call`].
pub fn is_len_call(path: &Vec<TokenKey>, args: &Vec<CallArg>) -> (r: bool)
    ensures
        r == len_call(path@, args@),
{
    path.len() == 1 && (is_key(&path[0], "_len") || is_key(&path[0], "len")) && args.len() == 1
        && args[0].name.is_none()
}

/// The range arguments, closure parameters and body of
/// `_list_filter(range(..), (x) => body)`.
pub open spec fn filtered_range<'a>(expr: Expr) -> Option<
    (&'a Vec<CallArg>, &'a Vec<ClosureParam>, &'a Node),
> {
    match expr {
        Expr::FnCall { path, args } => if path@.len() == 1 && key_is(path@[0], "_list_filter"@)
            && args@.len() == 2 && all_positional(args@) {
            match (bare_range(&*args@[0].value.expr), *args@[1].value.expr) {
                (Some(range_args), Expr::Closure { params, body, .. }) => if params@.len() == 1 {
                    Some((range_args, &params, &body))
                } else {
                    None
                },
                _ => None,
            }
        } else {
            None
        },
        _ => None,
    }
}

/// Executable form of [`filtered_range`].
pub fn match_filtered_range<'a>(expr: &'a Expr) -> (r: Option<
    (&'a Vec<CallArg>, &'a Vec<ClosureParam>, &'a Node),
>)
    ensures
        r == filtered_range(*expr),
{
    match expr {
        Expr::FnCall { path, args } => {
            if path.len() != 1 || !is_key(&path[0], "_list_filter") || args.len() != 2
                || !positional_only(args) {
                return None;
            }
            match (match_bare_range(&*args[0].value.expr), &*args[1].value.expr) {
                (Some(range_args), Expr::Closure { params, body, .. }) => if params.len() == 1 {
                    Some((range_args, params, body))
                } else {
                    None
                },
                _ => None,
            }
        },
        _ => None,
    }
}

/// The lowering of `_len(_list_filter(range(..), (x) => pred))`: the filtered
/// list is dead, so its survivors are only counted.
pub open spec fn len_filter_range<L: SubLowering>(
    low: L,
    path: Seq<TokenKey>,
    args: Seq<CallArg>,
    range: TokenRange,
    scope: Scope<'_>,
    at: SlotsView,
) -> Result<Option<FragmentView>, ErrorView> {
    if !len_call(path, args) {
        Ok(None)
    } else {
        match filtered_range(*args[0].value.expr) {
            Some((range_args, params, body)) => fired(
                pipeline_fragment(
                    low,
                    range_args@,
                    seq![
                        ChainStage {
                            method: StageMethod::Retain,
                            closure_params: params,
                            closure_body: body,
                        },
                    ],
                    RangeConsumer::Len,
                    range,
                    scope,
                    at,
                ),
            ),
            None => Ok(None),
        }
    }
}

/// Lowers `_len(_list_filter(range(..), (x) => pred))` to a counting loop.
pub fn try_lower_len_filter_range<L: SubLowering>(
    path: &Vec<TokenKey>,
    args: &Vec<CallArg>,
    range: TokenRange,
    scope: &Scope<'_>,
    at: &Slots,
    low: &L,
) -> (r: Result<Option<Fragment>, LoweringError>)
    ensures
        maybe_outcome(r) == len_filter_range(*low, path@, args@, range, *scope, at@),
{
    if !is_len_call(path, args) {
        return Ok(None);
    }
    match match_filtered_range(&*args[0].value.expr) {
        Some((range_args, params, body)) => {
            let mut stages: Vec<ChainStage<'_>> = Vec::new();
            stages.push(
                ChainStage {
                    method: StageMethod::Retain,
                    closure_params: params,
                    closure_body: body,
                },
            );
            let chain = RangeChain { range_args, stages };
            assert(chain.stages@ =~= seq![
                ChainStage {
                    method: StageMethod::Retain,
                    closure_params: params,
                    closure_body: body,
                },
            ]);
            applied(emit_range_pipeline_loop(&chain, RangeConsumer::Len, range, scope, at, low))
        },
        None => Ok(None),
    }
}

/// Counting the survivors of a filtered range is the same lowering whether it
/// is written `_len(_list_filter(range(..), f))` or `range(..).filter(f).len()`.
pub proof fn law_len_of_filter_forms_agree<L: SubLowering>(
    low: L,
    free_path: Seq<TokenKey>,
    free_args: Seq<CallArg>,
    method_path: Seq<TokenKey>,
    range: TokenRange,
    scope: Scope<'_>,
    at: SlotsView,
)
    requires
        len_call(free_path, free_args),
        filtered_range(*free_args[0].value.expr) matches Some((range_args, params, body))
            && method_receiver(method_path, "len"@) matches Some(receiver)
            && chain_of(&*receiver.expr) matches Some(c) && c.range_args == range_args
            && c.stages == seq![
            ChainStage {
                method: StageMethod::Retain,
                closure_params: params,
                closure_body: body,
            },
        ],
    ensures
        len_filter_range(low, free_path, free_args, range, scope, at) == range_chain_len(
            low,
            method_path,
            Seq::empty(),
            range,
            scope,
            at,
        ),
{
}

} // verus!

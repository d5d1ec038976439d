//! Recognition of `range(..)` pipelines and of the reductions over them.

use vstd::prelude::*;

use crate::ast::{
    all_positional, is_key, key_is, positional_only, CallArg, ClosureParam, Expr, Node, Operator,
    TokenKey, TokenRange,
};
use crate::error::{ErrorView, LoweringError};
use crate::ir::{IrType, SimpleOp};
use crate::text::{join2, same_text};

verus! {

/// What a pipeline stage does with the running element.
#[derive(Clone, Copy, Debug, PartialEq, Eq, Structural)]
pub enum StageMethod {
    Transform,
    Retain,
}

impl StageMethod {
    /// The method name as written in source.
    pub open spec fn text(self) -> Seq<char> {
        match self {
            StageMethod::Transform => "map"@,
            StageMethod::Retain => "filter"@,
        }
    }

    /// Executable form of [`StageMethod::text`].
    pub fn name(self) -> (r: &'static str)
        ensures
            r@ == self.text(),
    {
        match self {
            StageMethod::Transform => "map",
            StageMethod::Retain => "filter",
        }
    }
}

/// One `.map(closure)` or `.filter(closure)` stage.
#[derive(Debug, PartialEq, Eq)]
pub struct ChainStage<'a> {
    pub method: StageMethod,
    pub closure_params: &'a Vec<ClosureParam>,
    pub closure_body: &'a Node,
}

/// A `range(..)` call followed by stages in source order.
#[derive(Debug, PartialEq, Eq)]
pub struct RangeChain<'a> {
    pub range_args: &'a Vec<CallArg>,
    pub stages: Vec<ChainStage<'a>>,
}

/// The mathematical value of a [`RangeChain`].
pub ghost struct ChainView<'a> {
    pub range_args: &'a Vec<CallArg>,
    pub stages: Seq<ChainStage<'a>>,
}

impl<'a> View for RangeChain<'a> {
    type V = ChainView<'a>;

    open spec fn view(&self) -> ChainView<'a> {
        ChainView { range_args: self.range_args, stages: self.stages@ }
    }
}

/// `range(end)` or `range(start, end)` with positional arguments only.
pub open spec fn range_call(path: Seq<TokenKey>, args: Seq<CallArg>) -> bool {
    &&& path.len() == 1
    &&& key_is(path[0], "range"@)
    &&& 1 <= args.len() <= 2
    &&& all_positional(args)
}

/// The stage method a source name denotes.
pub open spec fn stage_method(name: Seq<char>) -> Option<StageMethod> {
    if name == "map"@ {
        Some(StageMethod::Transform)
    } else if name == "filter"@ {
        Some(StageMethod::Retain)
    } else {
        None
    }
}

/// Executable form of [`stage_method`].
pub fn parse_stage_method(name: &String) -> (r: Option<StageMethod>)
    ensures
        r == stage_method(name@),
{
    if same_text(name.as_str(), "map") {
        Some(StageMethod::Transform)
    } else if same_text(name.as_str(), "filter") {
        Some(StageMethod::Retain)
    } else {
        None
    }
}

/// The pipeline an expression spells: a bare `range(..)` call, or a pipeline
/// on which `.map` or `.filter` is called with one single-parameter closure.
pub open spec fn chain_of<'a>(expr: &'a Expr) -> Option<ChainView<'a>>
    decreases expr,
{
    match expr {
        Expr::FnCall { path, args } => if path@.len() == 1 {
            if range_call(path@, args@) {
                Some(ChainView { range_args: args, stages: Seq::empty() })
            } else {
                None
            }
        } else if path@.len() == 2 {
            match (path@[0], path@[1]) {
                (TokenKey::Dynamic(receiver, _), TokenKey::String(name, _, _)) => match (
                    stage_method(name@),
                    stage_closure(args@),
                    chain_of(&*receiver.expr),
                ) {
                    (Some(method), Some((params, body)), Some(inner)) => Some(
                        ChainView {
                            range_args: inner.range_args,
                            stages: inner.stages.push(
                                ChainStage { method, closure_params: params, closure_body: body },
                            ),
                        },
                    ),
                    _ => None,
                },
                _ => None,
            }
        } else {
            None
        },
        _ => None,
    }
}

/// The single positional closure argument of one parameter.
pub open spec fn stage_closure<'a>(args: Seq<CallArg>) -> Option<(
    &'a Vec<ClosureParam>,
    &'a Node,
)> {
    if args.len() == 1 && args[0].name is None {
        match *args[0].value.expr {
            Expr::Closure { params, body, .. } => if params@.len() == 1 {
                Some((&params, &body))
            } else {
                None
            },
            _ => None,
        }
    } else {
        None
    }
}

fn match_stage_closure<'a>(args: &'a Vec<CallArg>) -> (r: Option<(&'a Vec<ClosureParam>, &'a Node)>)
    ensures
        r == stage_closure(args@),
{
    if args.len() != 1 || args[0].name.is_some() {
        return None;
    }
    match &*args[0].value.expr {
        Expr::Closure { params, body, .. } => if params.len() == 1 {
            Some((params, body))
        } else {
            None
        },
        _ => None,
    }
}

/// Recognises a `range(..)` pipeline.
pub fn match_range_chain<'a>(expr: &'a Expr) -> (r: Option<RangeChain<'a>>)
    ensures
        match r {
            Some(c) => chain_of(expr) == Some(c@),
            None => chain_of(expr) is None,
        },
    decreases expr,
{
    match expr {
        Expr::FnCall { path, args } => {
            if path.len() == 1 {
                return match match_bare_range(expr) {
                    Some(range_args) => Some(RangeChain { range_args, stages: Vec::new() }),
                    None => None,
                };
            }
            if path.len() != 2 {
                return None;
            }
            match (&path[0], &path[1]) {
                (TokenKey::Dynamic(receiver, _), TokenKey::String(name, _, _)) => {
                    let method = match parse_stage_method(name) {
                        Some(m) => m,
                        None => {
                            return None;
                        },
                    };
                    let (params, body) = match match_stage_closure(args) {
                        Some(c) => c,
                        None => {
                            return None;
                        },
                    };
                    match match_range_chain(&*receiver.expr) {
                        Some(inner) => {
                            let mut stages = inner.stages;
                            stages.push(
                                ChainStage { method, closure_params: params, closure_body: body },
                            );
                            Some(RangeChain { range_args: inner.range_args, stages })
                        },
                        None => None,
                    }
                },
                _ => None,
            }
        },
        _ => None,
    }
}

/// The arguments of a bare `range(..)` call.
pub open spec fn bare_range<'a>(expr: &'a Expr) -> Option<&'a Vec<CallArg>> {
    match expr {
        Expr::FnCall { path, args } => if range_call(path@, args@) {
            Some(args)
        } else {
            None
        },
        _ => None,
    }
}

/// Recognises a `range(..)` call without trailing stages.
pub fn match_bare_range<'a>(expr: &'a Expr) -> (r: Option<&'a Vec<CallArg>>)
    ensures
        r == bare_range(expr),
{
    match expr {
        Expr::FnCall { path, args } => if is_range_call(path, args) {
            Some(args)
        } else {
            None
        },
        _ => None,
    }
}

/// Executable form of [`range_call`].
pub fn is_range_call(path: &Vec<TokenKey>, args: &Vec<CallArg>) -> (r: bool)
    ensures
        r == range_call(path@, args@),
{
    path.len() == 1 && is_key(&path[0], "range") && 1 <= args.len() && args.len() <= 2
        && positional_only(args)
}

/// The expression is the plain variable `name`.
pub open spec fn bare_var(expr: Expr, name: Seq<char>) -> bool {
    expr matches Expr::Variable(segs) && segs@.len() == 1 && key_is(segs@[0], name)
}

/// Executable form of [`bare_var`].
pub fn expr_is_bare_var(expr: &Expr, name: &str) -> (r: bool)
    ensures
        r == bare_var(*expr, name@),
{
    match expr {
        Expr::Variable(segs) => segs.len() == 1 && is_key(&segs[0], name),
        _ => false,
    }
}

/// How one row of a nested range is folded to an integer.
#[derive(Debug, PartialEq, Eq)]
pub enum RowFold<'a> {
    /// `list.sum(row)`.
    Sum,
    /// `row.reduce(init, (acc, cell) => body)`.
    Reduce {
        init: &'a Node,
        acc_param: &'a ClosureParam,
        cell_param: &'a ClosureParam,
        body: &'a Node,
    },
}

/// A reduce closure literal: its two parameters and its body.
pub open spec fn reduce_closure<'a>(node: Node) -> Option<(
    &'a ClosureParam,
    &'a ClosureParam,
    &'a Node,
)> {
    match *node.expr {
        Expr::Closure { params, body, .. } => if params@.len() == 2 {
            Some((&params@[0], &params@[1], &body))
        } else {
            None
        },
        _ => None,
    }
}

/// Executable form of [`reduce_closure`].
pub fn match_reduce_closure<'a>(node: &'a Node) -> (r: Option<
    (&'a ClosureParam, &'a ClosureParam, &'a Node),
>)
    ensures
        r == reduce_closure(*node),
{
    match &*node.expr {
        Expr::Closure { params, body, .. } => if params.len() == 2 {
            Some((&params[0], &params[1], body))
        } else {
            None
        },
        _ => None,
    }
}

/// The receiver of a method call is the plain variable `name`, spelled either
/// as a name segment or as a wrapped variable expression.
pub open spec fn receiver_is_var(key: TokenKey, name: Seq<char>) -> bool {
    match key {
        TokenKey::String(s, _, _) => s@ == name,
        TokenKey::Dynamic(node, _) => bare_var(*node.expr, name),
        _ => false,
    }
}

fn is_receiver_var(key: &TokenKey, name: &str) -> (r: bool)
    ensures
        r == receiver_is_var(*key, name@),
{
    match key {
        TokenKey::String(s, _, _) => same_text(s.as_str(), name),
        TokenKey::Dynamic(node, _) => expr_is_bare_var(&*node.expr, name),
        _ => false,
    }
}

/// The call has the shape `list.sum(<one positional argument>)`.
pub open spec fn sum_call(path: Seq<TokenKey>, args: Seq<CallArg>) -> bool {
    &&& path.len() == 2
    &&& key_is(path[0], "list"@)
    &&& key_is(path[1], "sum"@)
    &&& args.len() == 1
    &&& args[0].name is None
}

/// Executable form of [`sum_call`].
pub fn is_sum_call(path: &Vec<TokenKey>, args: &Vec<CallArg>) -> (r: bool)
    ensures
        r == sum_call(path@, args@),
{
    path.len() == 2 && is_key(&path[0], "list") && is_key(&path[1], "sum") && args.len() == 1
        && args[0].name.is_none()
}

/// The fold that an expression performs on the row variable `row`.
pub open spec fn row_fold<'a>(expr: Expr, row: Seq<char>) -> Option<RowFold<'a>> {
    match expr {
        Expr::FnCall { path, args } => if sum_call(path@, args@) {
            if bare_var(*args@[0].value.expr, row) {
                Some(RowFold::Sum)
            } else {
                None
            }
        } else if path@.len() == 2 && args@.len() == 2 && all_positional(args@) && key_is(
            path@[1],
            "reduce"@,
        ) && receiver_is_var(path@[0], row) {
            match reduce_closure(args@[1].value) {
                Some((acc_param, cell_param, body)) => Some(
                    RowFold::Reduce { init: &args@[0].value, acc_param, cell_param, body },
                ),
                None => None,
            }
        } else {
            None
        },
        _ => None,
    }
}

/// Recognises `list.sum(row)` and `row.reduce(init, (acc, cell) => body)`.
pub fn match_row_fold<'a>(expr: &'a Expr, row_name: &str) -> (r: Option<RowFold<'a>>)
    ensures
        r == row_fold(*expr, row_name@),
{
    match expr {
        Expr::FnCall { path, args } => {
            if is_sum_call(path, args) {
                return if expr_is_bare_var(&*args[0].value.expr, row_name) {
                    Some(RowFold::Sum)
                } else {
                    None
                };
            }
            if path.len() == 2 && args.len() == 2 && positional_only(args) && is_key(
                &path[1],
                "reduce",
            ) && is_receiver_var(&path[0], row_name) {
                match match_reduce_closure(&args[1].value) {
                    Some((acc_param, cell_param, body)) => Some(
                        RowFold::Reduce { init: &args[0].value, acc_param, cell_param, body },
                    ),
                    None => None,
                }
            } else {
                None
            }
        },
        _ => None,
    }
}

/// `acc <op> fold(row)` or its commuted form.
#[derive(Debug, PartialEq, Eq)]
pub struct OuterCombine<'a> {
    pub op: Operator,
    pub acc_is_lhs: bool,
    pub fold: RowFold<'a>,
}

/// The combination that a reduce body performs; the accumulator is looked for
/// on the left first.
pub open spec fn outer_combine<'a>(body: Expr, acc: Seq<char>, row: Seq<char>) -> Option<
    OuterCombine<'a>,
> {
    match body {
        Expr::Binary(op, lhs, rhs) => if bare_var(*lhs.expr, acc) {
            match row_fold(*rhs.expr, row) {
                Some(fold) => Some(OuterCombine { op, acc_is_lhs: true, fold }),
                None => None,
            }
        } else if bare_var(*rhs.expr, acc) {
            match row_fold(*lhs.expr, row) {
                Some(fold) => Some(OuterCombine { op, acc_is_lhs: false, fold }),
                None => None,
            }
        } else {
            None
        },
        _ => None,
    }
}

/// Executable form of [`outer_combine`].
pub fn match_outer_combine<'a>(body: &'a Expr, acc_name: &str, row_name: &str) -> (r: Option<
    OuterCombine<'a>,
>)
    ensures
        r == outer_combine(*body, acc_name@, row_name@),
{
    match body {
        Expr::Binary(op, lhs, rhs) => {
            if expr_is_bare_var(&*lhs.expr, acc_name) {
                return match match_row_fold(&*rhs.expr, row_name) {
                    Some(fold) => Some(OuterCombine { op: *op, acc_is_lhs: true, fold }),
                    None => None,
                };
            }
            if expr_is_bare_var(&*rhs.expr, acc_name) {
                return match match_row_fold(&*lhs.expr, row_name) {
                    Some(fold) => Some(OuterCombine { op: *op, acc_is_lhs: false, fold }),
                    None => None,
                };
            }
            None
        },
        _ => None,
    }
}

/// The tag printed for an operator in diagnostics.
pub open spec fn operator_tag(op: Operator) -> Seq<char> {
    match op {
        Operator::Add => "Add"@,
        Operator::Sub => "Sub"@,
        Operator::Mul => "Mul"@,
        Operator::Div => "Div"@,
        Operator::Mod => "Mod"@,
        Operator::Eq => "Eq"@,
        Operator::Ne => "Ne"@,
        Operator::Lt => "Lt"@,
        Operator::Le => "Le"@,
        Operator::Gt => "Gt"@,
        Operator::Ge => "Ge"@,
        Operator::And => "And"@,
        Operator::Or => "Or"@,
        Operator::Not => "Not"@,
        Operator::Neg => "Neg"@,
    }
}

fn operator_name(op: Operator) -> (r: &'static str)
    ensures
        r@ == operator_tag(op),
{
    match op {
        Operator::Add => "Add",
        Operator::Sub => "Sub",
        Operator::Mul => "Mul",
        Operator::Div => "Div",
        Operator::Mod => "Mod",
        Operator::Eq => "Eq",
        Operator::Ne => "Ne",
        Operator::Lt => "Lt",
        Operator::Le => "Le",
        Operator::Gt => "Gt",
        Operator::Ge => "Ge",
        Operator::And => "And",
        Operator::Or => "Or",
        Operator::Not => "Not",
        Operator::Neg => "Neg",
    }
}

/// The integer instruction of a combine operator; only `+`, `-` and `*` have
/// one.
pub open spec fn combine_op(op: Operator, range: TokenRange) -> Result<SimpleOp, ErrorView> {
    match op {
        Operator::Add => Ok(SimpleOp::Add(IrType::I64)),
        Operator::Sub => Ok(SimpleOp::Sub(IrType::I64)),
        Operator::Mul => Ok(SimpleOp::Mul(IrType::I64)),
        _ => Err(
            ErrorView::UnsupportedExpr {
                kind: "nested range.map reduce: unsupported combine operator "@ + operator_tag(op),
                range,
            },
        ),
    }
}

/// Executable form of [`combine_op`].
pub fn combine_operator_to_op(op: Operator, range: TokenRange) -> (r: Result<
    SimpleOp,
    LoweringError,
>)
    ensures
        match r {
            Ok(o) => combine_op(op, range) == Ok::<SimpleOp, ErrorView>(o),
            Err(e) => combine_op(op, range) == Err::<SimpleOp, ErrorView>(e@),
        },
{
    match op {
        Operator::Add => Ok(SimpleOp::Add(IrType::I64)),
        Operator::Sub => Ok(SimpleOp::Sub(IrType::I64)),
        Operator::Mul => Ok(SimpleOp::Mul(IrType::I64)),
        other => Err(
            LoweringError::UnsupportedExpr {
                kind: join2(
                    "nested range.map reduce: unsupported combine operator ",
                    operator_name(other),
                ),
                range,
            },
        ),
    }
}

/// The parameter and body of a pipeline that consists of one `map` stage.
pub open spec fn single_map<'a>(expr: &'a Expr) -> Option<
    (&'a Vec<CallArg>, &'a ClosureParam, &'a Node),
> {
    match chain_of(expr) {
        Some(c) => if c.stages.len() == 1 && c.stages[0].method == StageMethod::Transform
            && c.stages[0].closure_params@.len() == 1 {
            Some((c.range_args, &c.stages[0].closure_params@[0], c.stages[0].closure_body))
        } else {
            None
        },
        None => None,
    }
}

/// Recognises `range(..).map((p) => body)`.
pub fn match_materializable_outer_map<'a>(expr: &'a Expr) -> (r: Option<
    (&'a Vec<CallArg>, &'a ClosureParam, &'a Node),
>)
    ensures
        r == single_map(expr),
{
    match match_range_chain(expr) {
        Some(chain) => {
            if chain.stages.len() != 1 {
                return None;
            }
            let stage: &ChainStage<'a> = &chain.stages[0];
            match stage.method {
                StageMethod::Transform => if stage.closure_params.len() == 1 {
                    Some((chain.range_args, &stage.closure_params[0], stage.closure_body))
                } else {
                    None
                },
                StageMethod::Retain => None,
            }
        },
        None => None,
    }
}

/// `range(..).map((i) => range(..).map((j) => cell))`, taken apart.
#[derive(Debug, PartialEq, Eq)]
pub struct NestedRangeShape<'a> {
    pub outer_range_args: &'a Vec<CallArg>,
    pub outer_param: &'a ClosureParam,
    pub inner_range_args: &'a Vec<CallArg>,
    pub inner_param: &'a ClosureParam,
    pub cell_body: &'a Node,
}

/// A single `map` pipeline whose body is again a single `map` pipeline.
pub open spec fn nested_map<'a>(expr: &'a Expr) -> Option<NestedRangeShape<'a>> {
    match single_map(expr) {
        Some((outer_range_args, outer_param, body)) => match single_map(&*body.expr) {
            Some((inner_range_args, inner_param, cell_body)) => Some(
                NestedRangeShape {
                    outer_range_args,
                    outer_param,
                    inner_range_args,
                    inner_param,
                    cell_body,
                },
            ),
            None => None,
        },
        None => None,
    }
}

/// Executable form of [`nested_map`].
pub fn match_nested_range_map<'a>(expr: &'a Expr) -> (r: Option<NestedRangeShape<'a>>)
    ensures
        r == nested_map(expr),
{
    match match_materializable_outer_map(expr) {
        Some((outer_range_args, outer_param, body)) => match match_materializable_outer_map(
            &*body.expr,
        ) {
            Some((inner_range_args, inner_param, cell_body)) => Some(
                NestedRangeShape {
                    outer_range_args,
                    outer_param,
                    inner_range_args,
                    inner_param,
                    cell_body,
                },
            ),
            None => None,
        },
        None => None,
    }
}

} // verus!

//! Lowering of an expression: literals, names, matches, comprehensions and
//! calls.

use vstd::prelude::*;

use crate::ast::{expr_kind, expr_kind_name, Expr, Node, TokenRange};
use crate::calls::{fn_call, lower_fn_call, CallLowering};
use crate::comprehension::{comprehension, lower_comprehension};
use crate::error::{unsupported, ErrorView, LoweringError};
use crate::fragment::{
    lower_string, one_op, outcome, string_value, Fragment, FragmentView, LeafLowering, Scope, Slots,
    SlotsView,
};
use crate::ir::{sop, IrType, SimpleOp};
use crate::list_literal::{
    has_computed, list_lowered, lower_list, spread_outcome, SpreadList, SpreadView,
};
use crate::matching::{lower_match, match_lowered};
use crate::materialize::literal_fits;
use crate::names::NameTable;
use crate::native_import::HostFnEntry;
use crate::reference::{lower_reference, lower_variable, reference, variable, Frame};
use crate::stdlib::StdlibTable;

verus! {

/// What the lowering of an expression asks for beyond [`CallLowering`]. Each
/// method answers as a function of its arguments.
pub trait ExprLowering: CallLowering {
    /// The lowering of a form that joins other expressions: an f-string, a
    /// binary operator, a conditional, or a where block.
    spec fn composite(
        &self,
        expr: Expr,
        range: TokenRange,
        scope: Scope<'_>,
        at: SlotsView,
    ) -> Result<
        FragmentView,
        ErrorView,
    >;

    /// Lowers a form that joins other expressions.
    fn lower_composite(
        &self,
        expr: &Expr,
        range: TokenRange,
        scope: &Scope<'_>,
        at: &Slots,
    ) -> (r: Result<Fragment, LoweringError>)
        ensures
            outcome(r) == self.composite(*expr, range, *scope, at@),
    ;

    /// What becomes of the spreads of a list literal, if it has any.
    spec fn spread(
        &self,
        items: Seq<Node>,
        range: TokenRange,
        scope: Scope<'_>,
        at: SlotsView,
    ) -> Option<Result<SpreadView, ErrorView>>;

    /// Resolves the spreads of a list literal.
    fn resolve_spread(
        &self,
        items: &Vec<Node>,
        range: TokenRange,
        scope: &Scope<'_>,
        at: &Slots,
    ) -> (r: Option<Result<SpreadList, LoweringError>>)
        ensures
            spread_outcome(r) == self.spread(items@, range, *scope, at@),
            r matches Some(Ok(SpreadList::Flat(flat))) ==> literal_fits(flat@.len()),
    ;
}

/// What an expression is lowered against: the names around it, the names of
/// the builtin types, the bundled routines, and the host functions.
#[derive(Clone, Copy)]
pub struct ExprEnv<'a> {
    pub frame: Frame<'a>,
    pub builtins: &'a Vec<String>,
    pub table: &'a StdlibTable,
    pub host_fns: &'a NameTable<HostFnEntry>,
}

/// The sizes that the instructions can express: computed lists whose record
/// size fits its operand, and calls whose arguments can be counted.
pub open spec fn expr_fits(expr: Expr) -> bool {
    match expr {
        Expr::List(items) => has_computed(items@) ==> literal_fits(items@.len()),
        Expr::FnCall { args, .. } => args@.len() < u32::MAX,
        _ => true,
    }
}

/// One simple instruction that leaves a value.
pub open spec fn one_value(op: SimpleOp, ty: IrType, range: TokenRange, at: SlotsView) -> Result<
    FragmentView,
    ErrorView,
> {
    Ok(FragmentView { ops: seq![sop(op, range)], ty: Some(ty), slots: at })
}

/// The lowering of an expression.
pub open spec fn expr_lowered<L: ExprLowering>(
    low: L,
    env: ExprEnv<'_>,
    expr: Expr,
    range: TokenRange,
    scope: Scope<'_>,
    at: SlotsView,
) -> Result<FragmentView, ErrorView> {
    match expr {
        Expr::Bool(b) => one_value(SimpleOp::ConstBool(b), IrType::Bool, range, at),
        Expr::Int(v) => one_value(SimpleOp::ConstI64(v), IrType::I64, range, at),
        Expr::Float(bits) => one_value(SimpleOp::ConstF64(bits), IrType::F64, range, at),
        Expr::String(s) => Ok(string_value(s@, range, at)),
        Expr::List(items) => list_lowered(
            low,
            items@,
            low.spread(items@, range, scope, at),
            range,
            scope,
            at,
        ),
        Expr::Variable(path) => variable(low, env.frame, path@, range, scope, at),
        Expr::Reference { base, path } => reference(base, path@, range, scope, at),
        Expr::Match { expr: scrutinee, arms } => match_lowered(
            low,
            env.frame,
            scrutinee,
            arms@,
            env.builtins@,
            range,
            scope,
            at,
        ),
        Expr::FString(_) => low.composite(expr, range, scope, at),
        Expr::Binary(_, _, _) => low.composite(expr, range, scope, at),
        Expr::Ternary { .. } => low.composite(expr, range, scope, at),
        Expr::Where { .. } => low.composite(expr, range, scope, at),
        Expr::Comprehension { element, id, iterable, condition } => comprehension(
            low,
            *env.table,
            element,
            id@,
            iterable,
            condition,
            range,
            scope,
            at,
        ),
        Expr::FnCall { path, args } => fn_call(
            low,
            *env.table,
            *env.host_fns,
            path@,
            args@,
            range,
            scope,
            at,
        ),
        Expr::Closure { .. } => Err(
            ErrorView::ClosureAcrossBoundary {
                context: "closure used in a non-higher-order position"@,
                range,
            },
        ),
        _ => Err(ErrorView::UnsupportedExpr { kind: expr_kind(expr), range }),
    }
}

/// Lowers an expression.
pub fn lower_expr<L: ExprLowering>(
    expr: &Expr,
    range: TokenRange,
    env: &ExprEnv<'_>,
    scope: &Scope<'_>,
    at: &Slots,
    low: &L,
) -> (r: Result<Fragment, LoweringError>)
    requires
        env.table.wf(),
        expr_fits(*expr),
    ensures
        outcome(r) == expr_lowered(*low, *env, *expr, range, *scope, at@),
{
    match expr {
        Expr::Bool(b) => Ok(one_op(SimpleOp::ConstBool(*b), IrType::Bool, range, at)),
        Expr::Int(v) => Ok(one_op(SimpleOp::ConstI64(*v), IrType::I64, range, at)),
        Expr::Float(bits) => Ok(one_op(SimpleOp::ConstF64(*bits), IrType::F64, range, at)),
        Expr::String(s) => Ok(lower_string(s, range, at)),
        Expr::List(items) => {
            let spread = low.resolve_spread(items, range, scope, at);
            lower_list(items, spread, range, scope, at, low)
        },
        Expr::Variable(path) => lower_variable(path, range, &env.frame, scope, at, low),
        Expr::Reference { base, path } => lower_reference(*base, path, range, scope, at),
        Expr::Match { expr: scrutinee, arms } => lower_match(
            scrutinee,
            arms,
            env.builtins,
            range,
            &env.frame,
            scope,
            at,
            low,
        ),
        Expr::FString(_) => low.lower_composite(expr, range, scope, at),
        Expr::Binary(_, _, _) => low.lower_composite(expr, range, scope, at),
        Expr::Ternary { .. } => low.lower_composite(expr, range, scope, at),
        Expr::Where { .. } => low.lower_composite(expr, range, scope, at),
        Expr::Comprehension { element, id, iterable, condition } => lower_comprehension(
            element,
            id,
            iterable,
            condition.as_ref(),
            range,
            scope,
            at,
            low,
            env.table,
        ),
        Expr::FnCall { path, args } => lower_fn_call(
            path,
            args,
            range,
            scope,
            at,
            low,
            env.table,
            env.host_fns,
        ),
        Expr::Closure { .. } => Err(
            LoweringError::ClosureAcrossBoundary {
                context: "closure used in a non-higher-order position".to_owned(),
                range,
            },
        ),
        _ => Err(unsupported(expr_kind_name(expr), range)),
    }
}

impl ExprLowering for LeafLowering {
    open spec fn composite(
        &self,
        expr: Expr,
        range: TokenRange,
        scope: Scope<'_>,
        at: SlotsView,
    ) -> Result<FragmentView, ErrorView> {
        Err(ErrorView::UnsupportedExpr { kind: "leaf expression"@, range })
    }

    fn lower_composite(
        &self,
        expr: &Expr,
        range: TokenRange,
        scope: &Scope<'_>,
        at: &Slots,
    ) -> (r: Result<Fragment, LoweringError>) {
        Err(unsupported("leaf expression", range))
    }

    open spec fn spread(
        &self,
        items: Seq<Node>,
        range: TokenRange,
        scope: Scope<'_>,
        at: SlotsView,
    ) -> Option<Result<SpreadView, ErrorView>> {
        None
    }

    fn resolve_spread(
        &self,
        items: &Vec<Node>,
        range: TokenRange,
        scope: &Scope<'_>,
        at: &Slots,
    ) -> (r: Option<Result<SpreadList, LoweringError>>) {
        None
    }
}

} // verus!

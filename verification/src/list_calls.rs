//! Calls over materialised lists: lengths, sums, folds and the higher-order
//! routines `map` and `filter`.
//!
//! The functions named `try_lower_..` answer `Ok(None)` when the call is not of
//! their shape or its list operand does not lower to a supported list; nothing
//! is emitted and no slot is taken then.

use vstd::prelude::*;

use crate::ast::{
    all_positional, is_key, key_is, positional_only, CallArg, ClosureParam, Expr, Node, TokenKey,
    TokenRange,
};
use crate::chain::{is_sum_call, sum_call, StageMethod};
use crate::error::{unsupported, ErrorView, LoweringError};
use crate::fragment::{
    applied, bind, emit_get, emit_set, fired, let_get, let_set, lower_valued, maybe_outcome,
    outcome, slot, slot_at, valued, Fragment, FragmentView, Scope, Slots, SlotsView, SubLowering,
};
use crate::ir::{
    copy_types, emit, emit_all, emit_simple, ops_view, sop, IrType, Op, OpView, SimpleOp,
    TaggedOp, TaggedOpView,
};
use crate::materialize::{
    bump_i32, element_address, emit_bump_i32, emit_element_address, emit_payload_address,
    payload_address,
};
use crate::range_calls::{fold_closure, is_len_call, len_call, match_fold_closure};
use crate::range_loop::{emit_exit_guard, emit_loop, exit_guard, loop_op};
use crate::stdlib::StdlibTable;
use crate::text::{join2, join3};

verus! {

// ---------------------------------------------------------------------------
// Calls of bundled routines.
// ---------------------------------------------------------------------------

/// A routine that the table lacks.
pub open spec fn unknown_routine(name: Seq<char>, arity: usize, range: TokenRange) -> ErrorView {
    ErrorView::UnknownStdlibMethod { name, arity, range }
}

/// The call of the routine at index `i`.
pub open spec fn call_op(
    table: StdlibTable,
    i: int,
    arity: usize,
    range: TokenRange,
) -> TaggedOpView {
    TaggedOpView {
        op: OpView::Call {
            fn_index: i as u32,
            arg_count: arity as u32,
            param_tys: table.entries@[i].params@,
            ret_ty: table.entries@[i].ret,
        },
        range,
    }
}

/// `operands` followed by the call of a routine on them.
pub open spec fn routine_call(
    table: StdlibTable,
    name: Seq<char>,
    arity: usize,
    operands: Seq<TaggedOpView>,
    range: TokenRange,
    at: SlotsView,
) -> Result<FragmentView, ErrorView> {
    match table.index_of(name) {
        Some(i) => Ok(
            FragmentView {
                ops: operands.push(call_op(table, i, arity, range)),
                ty: Some(table.entries@[i].ret),
                slots: at,
            },
        ),
        None => Err(unknown_routine(name, arity, range)),
    }
}

/// Emits the call of a routine behind its operands.
pub fn emit_routine_call(
    table: &StdlibTable,
    name: &str,
    arity: usize,
    operands: Vec<TaggedOp>,
    range: TokenRange,
    at: &Slots,
) -> (r: Result<Fragment, LoweringError>)
    requires
        table.wf(),
        arity <= u32::MAX,
    ensures
        outcome(r) == routine_call(*table, name@, arity, ops_view(operands@), range, at@),
{
    match table.stdlib_function_index(name) {
        Some(i) => {
            let entry = &table.entries[i as usize];
            let mut out = operands;
            emit(
                &mut out,
                Op::Call {
                    fn_index: i,
                    arg_count: arity as u32,
                    param_tys: copy_types(&entry.params),
                    ret_ty: entry.ret,
                },
                range,
            );
            Ok(Fragment { ops: out, ty: Some(entry.ret), slots: at.copy() })
        },
        None => Err(LoweringError::UnknownStdlibMethod { name: name.to_owned(), arity, range }),
    }
}

/// A list operand of one expected type.
pub open spec fn list_operand<L: SubLowering>(
    low: L,
    node: Node,
    ty: IrType,
    scope: Scope<'_>,
    at: SlotsView,
) -> Option<FragmentView> {
    match low.lowered(node, scope, at) {
        Ok(f) => if f.ty == Some(ty) {
            Some(f)
        } else {
            None
        },
        Err(_) => None,
    }
}

/// The lowering of `len(xs)` and `_len(xs)` on an integer list.
pub open spec fn list_len<L: SubLowering>(
    low: L,
    path: Seq<TokenKey>,
    args: Seq<CallArg>,
    range: TokenRange,
    scope: Scope<'_>,
    at: SlotsView,
) -> Result<Option<FragmentView>, ErrorView> {
    if !len_call(path, args) {
        Ok(None)
    } else {
        match list_operand(low, args[0].value, IrType::ListInt, scope, at) {
            Some(f) => Ok(
                Some(
                    FragmentView {
                        ops: f.ops.push(sop(SimpleOp::ReadStringLen, range)),
                        ty: Some(IrType::I64),
                        slots: f.slots,
                    },
                ),
            ),
            None => Ok(None),
        }
    }
}

/// Lowers `len(xs)` and `_len(xs)` on an integer list.
pub fn try_lower_list_len<L: SubLowering>(
    path: &Vec<TokenKey>,
    args: &Vec<CallArg>,
    range: TokenRange,
    scope: &Scope<'_>,
    at: &Slots,
    low: &L,
) -> (r: Result<Option<Fragment>, LoweringError>)
    ensures
        maybe_outcome(r) == list_len(*low, path@, args@, range, *scope, at@),
{
    if !is_len_call(path, args) {
        return Ok(None);
    }
    match low.lower_node(&args[0].value, scope, at) {
        Ok(Fragment { ops, ty: Some(IrType::ListInt), slots }) => {
            let mut out = ops;
            emit_simple(&mut out, SimpleOp::ReadStringLen, range);
            Ok(Some(Fragment { ops: out, ty: Some(IrType::I64), slots }))
        },
        _ => Ok(None),
    }
}

/// The lowering of `list.sum(xs)` on an integer list.
pub open spec fn list_sum_value<L: SubLowering>(
    low: L,
    table: StdlibTable,
    path: Seq<TokenKey>,
    args: Seq<CallArg>,
    range: TokenRange,
    scope: Scope<'_>,
    at: SlotsView,
) -> Result<Option<FragmentView>, ErrorView> {
    if !sum_call(path, args) {
        Ok(None)
    } else {
        match list_operand(low, args[0].value, IrType::ListInt, scope, at) {
            Some(f) => fired(
                routine_call(table, "list_int_sum"@, 1, f.ops, range, f.slots),
            ),
            None => Ok(None),
        }
    }
}

/// Lowers `list.sum(xs)` on an integer list.
pub fn try_lower_list_sum_value<L: SubLowering>(
    path: &Vec<TokenKey>,
    args: &Vec<CallArg>,
    range: TokenRange,
    scope: &Scope<'_>,
    at: &Slots,
    low: &L,
    table: &StdlibTable,
) -> (r: Result<Option<Fragment>, LoweringError>)
    requires
        table.wf(),
    ensures
        maybe_outcome(r) == list_sum_value(*low, *table, path@, args@, range, *scope, at@),
{
    if !is_sum_call(path, args) {
        return Ok(None);
    }
    match low.lower_node(&args[0].value, scope, at) {
        Ok(Fragment { ops, ty: Some(IrType::ListInt), slots }) => applied(
            emit_routine_call(table, "list_int_sum", 1, ops, range, &slots),
        ),
        _ => Ok(None),
    }
}

// ---------------------------------------------------------------------------
// `map` and `filter`.
// ---------------------------------------------------------------------------

/// The element type of a list that `map` and `filter` work on.
pub open spec fn hof_element(ty: IrType) -> Option<IrType> {
    match ty {
        IrType::ListInt => Some(IrType::I64),
        IrType::ListFloat => Some(IrType::F64),
        IrType::ListString => Some(IrType::String),
        _ => None,
    }
}

/// Executable form of [`hof_element`].
pub fn hof_element_of(ty: IrType) -> (r: Option<IrType>)
    ensures
        r == hof_element(ty),
{
    match ty {
        IrType::ListInt => Some(IrType::I64),
        IrType::ListFloat => Some(IrType::F64),
        IrType::ListString => Some(IrType::String),
        _ => None,
    }
}

/// The routine that filters lists of an element type; string lists have none.
pub open spec fn filter_routine(elem: IrType) -> Option<Seq<char>> {
    match elem {
        IrType::I64 => Some("list_int_filter"@),
        IrType::F64 => Some("list_float_filter"@),
        _ => None,
    }
}

/// The routines that map lists of an element type, each with the closure
/// result it is for; the element-preserving one comes first.
pub open spec fn map_routines(elem: IrType) -> Seq<(IrType, Seq<char>)> {
    match elem {
        IrType::I64 => seq![
            (IrType::I64, "list_int_map"@),
            (IrType::F64, "list_int_map_to_float"@),
            (IrType::String, "list_int_map_to_string"@),
        ],
        IrType::F64 => seq![
            (IrType::F64, "list_float_map"@),
            (IrType::I64, "list_float_map_to_int"@),
            (IrType::String, "list_float_map_to_string"@),
        ],
        IrType::String => seq![(IrType::String, "list_string_map"@)],
        _ => Seq::empty(),
    }
}

/// Executable form of [`map_routines`].
pub fn map_routines_of(elem: IrType) -> (r: Vec<(IrType, &'static str)>)
    ensures
        r@.len() == map_routines(elem).len(),
        forall|i: int|
            0 <= i < r@.len() ==> map_routines(elem)[i] == ((#[trigger] r@[i]).0, r@[i].1@),
{
    let mut v: Vec<(IrType, &'static str)> = Vec::new();
    match elem {
        IrType::I64 => {
            v.push((IrType::I64, "list_int_map"));
            v.push((IrType::F64, "list_int_map_to_float"));
            v.push((IrType::String, "list_int_map_to_string"));
        },
        IrType::F64 => {
            v.push((IrType::F64, "list_float_map"));
            v.push((IrType::I64, "list_float_map_to_int"));
            v.push((IrType::String, "list_float_map_to_string"));
        },
        IrType::String => {
            v.push((IrType::String, "list_string_map"));
        },
        _ => {},
    }
    v
}

/// The closure lowered against one candidate result type. A body of another
/// type is no match; any other failure is final.
pub open spec fn closure_probe<L: SubLowering>(
    low: L,
    node: Node,
    param_tys: Seq<IrType>,
    ret_ty: IrType,
    scope: Scope<'_>,
    at: SlotsView,
) -> Result<Option<FragmentView>, ErrorView> {
    match low.closure_lowered(node, param_tys, ret_ty, scope, at) {
        Ok(f) => Ok(Some(f)),
        Err(ErrorView::StdlibArgTypeMismatch { .. }) => Ok(None),
        Err(e) => Err(e),
    }
}

/// Lowers a closure literal against a candidate result type.
pub fn try_lower_closure_with_ret<L: SubLowering>(
    node: &Node,
    param_tys: &Vec<IrType>,
    ret_ty: IrType,
    scope: &Scope<'_>,
    at: &Slots,
    low: &L,
) -> (r: Result<Option<Fragment>, LoweringError>)
    ensures
        maybe_outcome(r) == closure_probe(*low, *node, param_tys@, ret_ty, *scope, at@),
{
    match low.lower_closure(node, param_tys, ret_ty, scope, at) {
        Ok(f) => Ok(Some(f)),
        Err(e) => match e {
            LoweringError::StdlibArgTypeMismatch { .. } => Ok(None),
            other => Err(other),
        },
    }
}

/// The first `map` routine from position `from` on whose result type fits the
/// closure, called behind the list operand.
pub open spec fn map_tail<L: SubLowering>(
    low: L,
    table: StdlibTable,
    elem: IrType,
    from: int,
    closure: Node,
    range: TokenRange,
    scope: Scope<'_>,
    at: SlotsView,
) -> Result<Option<FragmentView>, ErrorView>
    decreases map_routines(elem).len() - from,
{
    let routines = map_routines(elem);
    if from < 0 || from >= routines.len() {
        Ok(None)
    } else {
        let (ret_ty, name) = routines[from];
        match closure_probe(low, closure, seq![elem], ret_ty, scope, at) {
            Err(e) => Err(e),
            Ok(Some(f)) => fired(
                routine_call(table, name, 2, f.ops, range, f.slots),
            ),
            Ok(None) => map_tail(low, table, elem, from + 1, closure, range, scope, at),
        }
    }
}

/// What follows the list operand of `map` or `filter`: the closure and the
/// call of the routine that fits.
pub open spec fn hof_tail<L: SubLowering>(
    low: L,
    table: StdlibTable,
    kind: StageMethod,
    elem: IrType,
    closure: Node,
    range: TokenRange,
    scope: Scope<'_>,
    at: SlotsView,
) -> Result<Option<FragmentView>, ErrorView> {
    match kind {
        StageMethod::Transform => map_tail(low, table, elem, 0, closure, range, scope, at),
        StageMethod::Retain => match filter_routine(elem) {
            None => Ok(None),
            Some(name) => match table.closure_sig(name, 1) {
                None => Err(
                    ErrorView::UnsupportedExpr {
                        kind: name + " closure signature missing"@,
                        range,
                    },
                ),
                Some((params, ret)) => match low.closure_lowered(closure, params, ret, scope, at) {
                    Err(e) => Err(e),
                    Ok(f) => fired(
                        routine_call(table, name, 2, f.ops, range, f.slots),
                    ),
                },
            },
        },
    }
}

/// Emits the call of a list routine of one closure behind its operands.
pub fn finish_list_hof(
    table: &StdlibTable,
    builtin: &str,
    operands: Fragment,
    range: TokenRange,
) -> (r: Result<Option<Fragment>, LoweringError>)
    requires
        table.wf(),
    ensures
        maybe_outcome(r) == fired(
            routine_call(*table, builtin@, 2, operands@.ops, range, operands.slots@),
        ),
{
    let Fragment { ops, slots, .. } = operands;
    applied(emit_routine_call(table, builtin, 2, ops, range, &slots))
}

fn emit_hof_tail<L: SubLowering>(
    kind: StageMethod,
    elem: IrType,
    closure: &Node,
    range: TokenRange,
    scope: &Scope<'_>,
    at: &Slots,
    low: &L,
    table: &StdlibTable,
) -> (r: Result<Option<Fragment>, LoweringError>)
    requires
        table.wf(),
    ensures
        maybe_outcome(r) == hof_tail(*low, *table, kind, elem, *closure, range, *scope, at@),
{
    match kind {
        StageMethod::Transform => {
            let routines = map_routines_of(elem);
            let mut params: Vec<IrType> = Vec::new();
            params.push(elem);
            assert(params@ =~= seq![elem]);
            let mut i: usize = 0;
            while i < routines.len()
                invariant
                    i <= routines.len(),
                    table.wf(),
                    kind == StageMethod::Transform,
                    params@ == seq![elem],
                    routines@.len() == map_routines(elem).len(),
                    forall|k: int|
                        0 <= k < routines@.len() ==> map_routines(elem)[k] == (
                            (#[trigger] routines@[k]).0,
                            routines@[k].1@,
                        ),
                    map_tail(*low, *table, elem, i as int, *closure, range, *scope, at@)
                        == map_tail(*low, *table, elem, 0, *closure, range, *scope, at@),
                decreases routines.len() - i,
            {
                let (ret_ty, name) = routines[i];
                assert(map_routines(elem)[i as int] == (ret_ty, name@));
                match try_lower_closure_with_ret(closure, &params, ret_ty, scope, at, low) {
                    Err(e) => {
                        return Err(e);
                    },
                    Ok(Some(f)) => {
                        return finish_list_hof(table, name, f, range);
                    },
                    Ok(None) => {},
                }
                i += 1;
            }
            Ok(None)
        },
        StageMethod::Retain => {
            let name: &'static str = match elem {
                IrType::I64 => "list_int_filter",
                IrType::F64 => "list_float_filter",
                _ => {
                    return Ok(None);
                },
            };
            let sig = match table.stdlib_closure_arg_signature(name, 1) {
                Some(sig) => sig,
                None => {
                    return Err(
                        LoweringError::UnsupportedExpr {
                            kind: join2(name, " closure signature missing"),
                            range,
                        },
                    );
                },
            };
            match low.lower_closure(closure, &sig.params, sig.ret, scope, at) {
                Err(e) => Err(e),
                Ok(f) => finish_list_hof(table, name, f, range),
            }
        },
    }
}

/// The lowering of `map` or `filter` called as `routine(xs, closure)`.
pub open spec fn hof_call<L: SubLowering>(
    low: L,
    table: StdlibTable,
    kind: StageMethod,
    args: Seq<CallArg>,
    range: TokenRange,
    scope: Scope<'_>,
    at: SlotsView,
) -> Result<Option<FragmentView>, ErrorView> {
    match low.lowered(args[0].value, scope, at) {
        Err(_) => Ok(None),
        Ok(src) => match src.ty {
            None => Ok(None),
            Some(ty) => match hof_element(ty) {
                None => Ok(None),
                Some(elem) => match hof_tail(
                    low,
                    table,
                    kind,
                    elem,
                    args[1].value,
                    range,
                    scope,
                    src.slots,
                ) {
                    Ok(Some(tail)) => Ok(
                        Some(
                            FragmentView {
                                ops: src.ops + tail.ops,
                                ty: tail.ty,
                                slots: tail.slots,
                            },
                        ),
                    ),
                    other => other,
                },
            },
        },
    }
}

/// Lowers `map` or `filter` over the list that the first argument lowers to.
pub fn emit_list_hof_call<L: SubLowering>(
    kind: StageMethod,
    args: &Vec<CallArg>,
    range: TokenRange,
    scope: &Scope<'_>,
    at: &Slots,
    low: &L,
    table: &StdlibTable,
) -> (r: Result<Option<Fragment>, LoweringError>)
    requires
        table.wf(),
        args@.len() >= 2,
    ensures
        maybe_outcome(r) == hof_call(*low, *table, kind, args@, range, *scope, at@),
{
    match low.lower_node(&args[0].value, scope, at) {
        Ok(Fragment { ops, ty: Some(ty), slots }) => match hof_element_of(ty) {
            None => Ok(None),
            Some(elem) => match emit_hof_tail(
                kind,
                elem,
                &args[1].value,
                range,
                scope,
                &slots,
                low,
                table,
            ) {
                Ok(Some(tail)) => {
                    let mut out = ops;
                    let Fragment { ops: tail_ops, ty: tail_ty, slots: tail_slots } = tail;
                    emit_all(&mut out, tail_ops);
                    Ok(Some(Fragment { ops: out, ty: tail_ty, slots: tail_slots }))
                },
                other => other,
            },
        },
        _ => Ok(None),
    }
}

/// What follows an already lowered receiver in `xs.map(f)` and `xs.filter(f)`.
pub open spec fn hof_method<L: SubLowering>(
    low: L,
    table: StdlibTable,
    kind: StageMethod,
    receiver_ty: IrType,
    closure: Node,
    range: TokenRange,
    scope: Scope<'_>,
    at: SlotsView,
) -> Result<Option<FragmentView>, ErrorView> {
    match *closure.expr {
        Expr::Closure { params, .. } => match (params@.len() == 1, hof_element(receiver_ty)) {
            (true, Some(elem)) => hof_tail(
                low,
                table,
                kind,
                elem,
                closure,
                range,
                scope,
                at,
            ),
            _ => Ok(None),
        },
        _ => Ok(None),
    }
}

/// Lowers what follows the receiver of `xs.map(f)` and `xs.filter(f)`; the
/// receiver's handle is already on the stack.
pub fn emit_list_hof_method<L: SubLowering>(
    kind: StageMethod,
    receiver_ty: IrType,
    closure: &Node,
    range: TokenRange,
    scope: &Scope<'_>,
    at: &Slots,
    low: &L,
    table: &StdlibTable,
) -> (r: Result<Option<Fragment>, LoweringError>)
    requires
        table.wf(),
    ensures
        maybe_outcome(r) == hof_method(
            *low,
            *table,
            kind,
            receiver_ty,
            *closure,
            range,
            *scope,
            at@,
        ),
{
    match &*closure.expr {
        Expr::Closure { params, .. } => {
            if params.len() != 1 {
                return Ok(None);
            }
            match hof_element_of(receiver_ty) {
                None => Ok(None),
                Some(elem) => emit_hof_tail(kind, elem, closure, range, scope, at, low, table),
            }
        },
        _ => Ok(None),
    }
}

/// `name(xs, (x) => ..)` with positional arguments only.
pub open spec fn unary_hof_call(path: Seq<TokenKey>, args: Seq<CallArg>, name: Seq<char>) -> bool {
    &&& path.len() == 1
    &&& key_is(path[0], name)
    &&& args.len() == 2
    &&& all_positional(args)
    &&& (*args[1].value.expr) matches Expr::Closure { params, .. } && params@.len() == 1
}

fn is_unary_hof_call(path: &Vec<TokenKey>, args: &Vec<CallArg>, name: &str) -> (r: bool)
    ensures
        r == unary_hof_call(path@, args@, name@),
{
    if path.len() != 1 || !is_key(&path[0], name) || args.len() != 2 || !positional_only(args) {
        return false;
    }
    match &*args[1].value.expr {
        Expr::Closure { params, .. } => params.len() == 1,
        _ => false,
    }
}

/// The lowering of `_list_map(xs, (x) => body)`.
pub open spec fn list_map<L: SubLowering>(
    low: L,
    table: StdlibTable,
    path: Seq<TokenKey>,
    args: Seq<CallArg>,
    range: TokenRange,
    scope: Scope<'_>,
    at: SlotsView,
) -> Result<Option<FragmentView>, ErrorView> {
    if unary_hof_call(path, args, "_list_map"@) {
        hof_call(low, table, StageMethod::Transform, args, range, scope, at)
    } else {
        Ok(None)
    }
}

/// Lowers `_list_map(xs, (x) => body)`.
pub fn try_lower_list_map<L: SubLowering>(
    path: &Vec<TokenKey>,
    args: &Vec<CallArg>,
    range: TokenRange,
    scope: &Scope<'_>,
    at: &Slots,
    low: &L,
    table: &StdlibTable,
) -> (r: Result<Option<Fragment>, LoweringError>)
    requires
        table.wf(),
    ensures
        maybe_outcome(r) == list_map(*low, *table, path@, args@, range, *scope, at@),
{
    if !is_unary_hof_call(path, args, "_list_map") {
        return Ok(None);
    }
    emit_list_hof_call(StageMethod::Transform, args, range, scope, at, low, table)
}

/// The lowering of `_list_filter(xs, (x) => pred)`. An integer list looks its
/// routine up before the predicate is lowered; a float list goes the common
/// way.
pub open spec fn list_filter<L: SubLowering>(
    low: L,
    table: StdlibTable,
    path: Seq<TokenKey>,
    args: Seq<CallArg>,
    range: TokenRange,
    scope: Scope<'_>,
    at: SlotsView,
) -> Result<Option<FragmentView>, ErrorView> {
    let name = "list_int_filter"@;
    if !unary_hof_call(path, args, "_list_filter"@) {
        Ok(None)
    } else {
        match low.lowered(args[0].value, scope, at) {
            Err(_) => Ok(None),
            Ok(src) => if src.ty == Some(IrType::ListFloat) {
                hof_call(low, table, StageMethod::Retain, args, range, scope, at)
            } else if src.ty != Some(IrType::ListInt) {
                Ok(None)
            } else {
                match table.index_of(name) {
                    None => Err(unknown_routine(name, 2, range)),
                    Some(_) => match table.closure_sig(name, 1) {
                        None => Err(
                            ErrorView::UnsupportedExpr {
                                kind: "list_int_filter closure signature missing"@,
                                range,
                            },
                        ),
                        Some((params, ret)) => match low.closure_lowered(
                            args[1].value,
                            params,
                            ret,
                            scope,
                            src.slots,
                        ) {
                            Err(e) => Err(e),
                            Ok(f) => fired(
                                routine_call(table, name, 2, src.ops + f.ops, range, f.slots),
                            ),
                        },
                    },
                }
            },
        }
    }
}

/// Lowers `_list_filter(xs, (x) => pred)`.
pub fn try_lower_list_filter<L: SubLowering>(
    path: &Vec<TokenKey>,
    args: &Vec<CallArg>,
    range: TokenRange,
    scope: &Scope<'_>,
    at: &Slots,
    low: &L,
    table: &StdlibTable,
) -> (r: Result<Option<Fragment>, LoweringError>)
    requires
        table.wf(),
    ensures
        maybe_outcome(r) == list_filter(*low, *table, path@, args@, range, *scope, at@),
{
    if !is_unary_hof_call(path, args, "_list_filter") {
        return Ok(None);
    }
    match low.lower_node(&args[0].value, scope, at) {
        Ok(Fragment { ty: Some(IrType::ListFloat), .. }) => emit_list_hof_call(
            StageMethod::Retain,
            args,
            range,
            scope,
            at,
            low,
            table,
        ),
        Ok(Fragment { ops, ty: Some(IrType::ListInt), slots }) => {
            if table.stdlib_function_index("list_int_filter").is_none() {
                return Err(
                    LoweringError::UnknownStdlibMethod {
                        name: "list_int_filter".to_owned(),
                        arity: 2,
                        range,
                    },
                );
            }
            let sig = match table.stdlib_closure_arg_signature("list_int_filter", 1) {
                Some(sig) => sig,
                None => {
                    return Err(unsupported("list_int_filter closure signature missing", range));
                },
            };
            match low.lower_closure(&args[1].value, &sig.params, sig.ret, scope, &slots) {
                Err(e) => Err(e),
                Ok(f) => {
                    let mut out = ops;
                    emit_all(&mut out, f.ops);
                    applied(
                        emit_routine_call(table, "list_int_filter", 2, out, range, &f.slots),
                    )
                },
            }
        },
        _ => Ok(None),
    }
}

// ---------------------------------------------------------------------------
// Folds.
// ---------------------------------------------------------------------------

/// An optional type as printed in diagnostics.
pub open spec fn optional_tag(ty: Option<IrType>) -> Seq<char> {
    match ty {
        Some(t) => "Some("@ + t.tag() + ")"@,
        None => "None"@,
    }
}

/// Executable form of [`optional_tag`].
pub fn optional_name(ty: Option<IrType>) -> (r: String)
    ensures
        r@ == optional_tag(ty),
{
    match ty {
        Some(t) => join3("Some(", t.name(), ")"),
        None => "None".to_owned(),
    }
}

/// What distinguishes folding integers from folding floats.
#[derive(Clone, Copy, Debug, PartialEq, Eq, Structural)]
pub enum FoldKind {
    Int,
    Float,
}

impl FoldKind {
    /// The list type that is folded.
    pub open spec fn list_ty(self) -> IrType {
        match self {
            FoldKind::Int => IrType::ListInt,
            FoldKind::Float => IrType::ListFloat,
        }
    }

    /// The routine that folds.
    pub open spec fn routine(self) -> Seq<char> {
        match self {
            FoldKind::Int => "list_int_fold"@,
            FoldKind::Float => "list_float_fold"@,
        }
    }

    fn routine_name(self) -> (r: &'static str)
        ensures
            r@ == self.routine(),
    {
        match self {
            FoldKind::Int => "list_int_fold",
            FoldKind::Float => "list_float_fold",
        }
    }

    /// The start of the message on an initial value of the wrong type.
    pub open spec fn init_message(self) -> Seq<char> {
        match self {
            FoldKind::Int => "_list_reduce(init) must be Int, got "@,
            FoldKind::Float => "_list_reduce(init) must be Float, got "@,
        }
    }

    fn init_message_text(self) -> (r: &'static str)
        ensures
            r@ == self.init_message(),
    {
        match self {
            FoldKind::Int => "_list_reduce(init) must be Int, got ",
            FoldKind::Float => "_list_reduce(init) must be Float, got ",
        }
    }
}

/// The initial value of a fold. A float fold converts an integer.
pub open spec fn fold_init<L: SubLowering>(
    low: L,
    kind: FoldKind,
    init: Node,
    scope: Scope<'_>,
    at: SlotsView,
) -> Result<FragmentView, ErrorView> {
    match low.lowered(init, scope, at) {
        Err(e) => Err(e),
        Ok(f) => match (kind, f.ty) {
            (FoldKind::Int, Some(IrType::I64)) | (FoldKind::Float, Some(IrType::F64)) => Ok(f),
            (FoldKind::Float, Some(IrType::I64)) => Ok(
                FragmentView {
                    ops: f.ops.push(sop(SimpleOp::ConvertI64ToF64, init.range)),
                    ty: Some(IrType::F64),
                    slots: f.slots,
                },
            ),
            _ => Err(
                ErrorView::UnsupportedExpr {
                    kind: kind.init_message() + optional_tag(f.ty),
                    range: init.range,
                },
            ),
        },
    }
}

fn lower_fold_init<L: SubLowering>(
    low: &L,
    kind: FoldKind,
    init: &Node,
    scope: &Scope<'_>,
    at: &Slots,
) -> (r: Result<Fragment, LoweringError>)
    ensures
        outcome(r) == fold_init(*low, kind, *init, *scope, at@),
{
    match low.lower_node(init, scope, at) {
        Err(e) => Err(e),
        Ok(f) => match (kind, f.ty) {
            (FoldKind::Int, Some(IrType::I64)) | (FoldKind::Float, Some(IrType::F64)) => Ok(f),
            (FoldKind::Float, Some(IrType::I64)) => {
                let Fragment { ops, slots, .. } = f;
                let mut out = ops;
                emit_simple(&mut out, SimpleOp::ConvertI64ToF64, init.range);
                Ok(Fragment { ops: out, ty: Some(IrType::F64), slots })
            },
            (_, got) => {
                let shown: String = optional_name(got);
                Err(
                    LoweringError::UnsupportedExpr {
                        kind: join2(kind.init_message_text(), shown.as_str()),
                        range: init.range,
                    },
                )
            },
        },
    }
}

/// What follows the list operand of a fold: the initial value, the closure and
/// the call.
pub open spec fn fold_tail<L: SubLowering>(
    low: L,
    table: StdlibTable,
    kind: FoldKind,
    src: FragmentView,
    args: Seq<CallArg>,
    range: TokenRange,
    scope: Scope<'_>,
) -> Result<FragmentView, ErrorView> {
    let name = kind.routine();
    match table.index_of(name) {
        None => Err(unknown_routine(name, 3, range)),
        Some(_) => match fold_init(low, kind, args[1].value, scope, src.slots) {
            Err(e) => Err(e),
            Ok(init) => match table.closure_sig(name, 2) {
                None => Err(
                    ErrorView::UnsupportedExpr {
                        kind: name + " closure signature missing"@,
                        range,
                    },
                ),
                Some((params, ret)) => match low.closure_lowered(
                    args[2].value,
                    params,
                    ret,
                    scope,
                    init.slots,
                ) {
                    Err(e) => Err(e),
                    Ok(f) => routine_call(
                        table,
                        name,
                        3,
                        src.ops + init.ops + f.ops,
                        range,
                        f.slots,
                    ),
                },
            },
        },
    }
}

fn emit_fold_tail<L: SubLowering>(
    kind: FoldKind,
    src: Fragment,
    args: &Vec<CallArg>,
    range: TokenRange,
    scope: &Scope<'_>,
    low: &L,
    table: &StdlibTable,
) -> (r: Result<Fragment, LoweringError>)
    requires
        table.wf(),
        args@.len() >= 3,
    ensures
        outcome(r) == fold_tail(*low, *table, kind, src@, args@, range, *scope),
{
    let name: &'static str = kind.routine_name();
    if table.stdlib_function_index(name).is_none() {
        return Err(LoweringError::UnknownStdlibMethod { name: name.to_owned(), arity: 3, range });
    }
    let init = match lower_fold_init(low, kind, &args[1].value, scope, &src.slots) {
        Err(e) => {
            return Err(e);
        },
        Ok(f) => f,
    };
    let sig = match table.stdlib_closure_arg_signature(name, 2) {
        Some(sig) => sig,
        None => {
            return Err(
                LoweringError::UnsupportedExpr {
                    kind: join2(name, " closure signature missing"),
                    range,
                },
            );
        },
    };
    match low.lower_closure(&args[2].value, &sig.params, sig.ret, scope, &init.slots) {
        Err(e) => Err(e),
        Ok(f) => {
            let mut out = src.ops;
            emit_all(&mut out, init.ops);
            emit_all(&mut out, f.ops);
            emit_routine_call(table, name, 3, out, range, &f.slots)
        },
    }
}

/// The fold of a float list.
pub open spec fn float_fold<L: SubLowering>(
    low: L,
    table: StdlibTable,
    args: Seq<CallArg>,
    range: TokenRange,
    scope: Scope<'_>,
    at: SlotsView,
) -> Result<Option<FragmentView>, ErrorView> {
    match list_operand(low, args[0].value, IrType::ListFloat, scope, at) {
        Some(src) => fired(
            fold_tail(low, table, FoldKind::Float, src, args, range, scope),
        ),
        None => Ok(None),
    }
}

/// Lowers the fold of a float list; an integer initial value is converted.
pub fn emit_list_float_fold_call<L: SubLowering>(
    args: &Vec<CallArg>,
    range: TokenRange,
    scope: &Scope<'_>,
    at: &Slots,
    low: &L,
    table: &StdlibTable,
) -> (r: Result<Option<Fragment>, LoweringError>)
    requires
        table.wf(),
        args@.len() >= 3,
    ensures
        maybe_outcome(r) == float_fold(*low, *table, args@, range, *scope, at@),
{
    match low.lower_node(&args[0].value, scope, at) {
        Ok(src) => match src.ty {
            Some(IrType::ListFloat) => applied(
                emit_fold_tail(FoldKind::Float, src, args, range, scope, low, table),
            ),
            _ => Ok(None),
        },
        Err(_) => Ok(None),
    }
}

/// The fold of an integer or float list, chosen by what the operand lowers to.
pub open spec fn list_fold<L: SubLowering>(
    low: L,
    table: StdlibTable,
    args: Seq<CallArg>,
    range: TokenRange,
    scope: Scope<'_>,
    at: SlotsView,
) -> Result<Option<FragmentView>, ErrorView> {
    match low.lowered(args[0].value, scope, at) {
        Err(_) => Ok(None),
        Ok(src) => match src.ty {
            Some(IrType::ListFloat) => float_fold(low, table, args, range, scope, at),
            Some(IrType::ListInt) => fired(
                fold_tail(low, table, FoldKind::Int, src, args, range, scope),
            ),
            _ => Ok(None),
        },
    }
}

/// Lowers the fold of an integer list; a float list is handed on.
pub fn emit_list_int_fold_call<L: SubLowering>(
    args: &Vec<CallArg>,
    range: TokenRange,
    scope: &Scope<'_>,
    at: &Slots,
    low: &L,
    table: &StdlibTable,
) -> (r: Result<Option<Fragment>, LoweringError>)
    requires
        table.wf(),
        args@.len() >= 3,
    ensures
        maybe_outcome(r) == list_fold(*low, *table, args@, range, *scope, at@),
{
    match low.lower_node(&args[0].value, scope, at) {
        Ok(src) => match src.ty {
            Some(IrType::ListFloat) => emit_list_float_fold_call(
                args,
                range,
                scope,
                at,
                low,
                table,
            ),
            Some(IrType::ListInt) => applied(
                emit_fold_tail(FoldKind::Int, src, args, range, scope, low, table),
            ),
            _ => Ok(None),
        },
        Err(_) => Ok(None),
    }
}

/// The lowering of `_list_reduce(xs, init, (acc, x) => body)`.
pub open spec fn list_reduce<L: SubLowering>(
    low: L,
    table: StdlibTable,
    path: Seq<TokenKey>,
    args: Seq<CallArg>,
    range: TokenRange,
    scope: Scope<'_>,
    at: SlotsView,
) -> Result<Option<FragmentView>, ErrorView> {
    if path.len() == 1 && key_is(path[0], "_list_reduce"@) && args.len() == 3 && all_positional(
        args,
    ) && fold_closure(args[2].value) is Some {
        list_fold(low, table, args, range, scope, at)
    } else {
        Ok(None)
    }
}

/// Lowers `_list_reduce(xs, init, (acc, x) => body)`.
pub fn try_lower_list_reduce<L: SubLowering>(
    path: &Vec<TokenKey>,
    args: &Vec<CallArg>,
    range: TokenRange,
    scope: &Scope<'_>,
    at: &Slots,
    low: &L,
    table: &StdlibTable,
) -> (r: Result<Option<Fragment>, LoweringError>)
    requires
        table.wf(),
    ensures
        maybe_outcome(r) == list_reduce(*low, *table, path@, args@, range, *scope, at@),
{
    if path.len() != 1 || !is_key(&path[0], "_list_reduce") || args.len() != 3
        || !positional_only(args) || match_fold_closure(&args[2].value).is_none() {
        return Ok(None);
    }
    emit_list_int_fold_call(args, range, scope, at, low, table)
}

// ---------------------------------------------------------------------------
// `type(v)`.
// ---------------------------------------------------------------------------

/// The lowering of `type(v)`: the argument is evaluated and its value dropped
/// into a slot that nothing reads, then the name of its type is pushed. `None`
/// where the call is another, or the type of the value has no name.
pub open spec fn type_const<L: SubLowering>(
    low: L,
    path: Seq<TokenKey>,
    args: Seq<CallArg>,
    range: TokenRange,
    scope: Scope<'_>,
    at: SlotsView,
) -> Result<Option<FragmentView>, ErrorView> {
    if path.len() == 1 && key_is(path[0], "type"@) && args.len() == 1 && args[0].name is None {
        match low.lowered(args[0].value, scope, at) {
            Err(e) => Err(e),
            Ok(f) => match f.ty {
                Some(ty) => match ty.user_text() {
                    Some(text) => Ok(
                        Some(
                            FragmentView {
                                ops: f.ops.push(let_set(f.slots.lets, ty, range)).push(
                                    TaggedOpView {
                                        op: OpView::ConstString {
                                            idx: f.slots.string_number(text),
                                            value: text,
                                        },
                                        range,
                                    },
                                ),
                                ty: Some(IrType::String),
                                slots: f.slots.after(1).after_string(text),
                            },
                        ),
                    ),
                    None => Ok(None),
                },
                None => Ok(None),
            },
        }
    } else {
        Ok(None)
    }
}

/// Folds `type(v)` to a constant string.
pub fn try_lower_type_const<L: SubLowering>(
    path: &Vec<TokenKey>,
    args: &Vec<CallArg>,
    range: TokenRange,
    scope: &Scope<'_>,
    at: &Slots,
    low: &L,
) -> (r: Result<Option<Fragment>, LoweringError>)
    ensures
        maybe_outcome(r) == type_const(*low, path@, args@, range, *scope, at@),
{
    if path.len() != 1 || !is_key(&path[0], "type") || args.len() != 1 || args[0].name.is_some() {
        return Ok(None);
    }
    match low.lower_node(&args[0].value, scope, at) {
        Err(e) => Err(e),
        Ok(Fragment { ops, ty: Some(ty), slots }) => match ty.user_name() {
            Some(text) => {
                let mut out = ops;
                emit_set(&mut out, slots.lets, ty, range);
                let (idx, next) = slots.reserve(1).intern(text);
                emit(&mut out, Op::ConstString { idx, value: text.to_owned() }, range);
                Ok(Some(Fragment { ops: out, ty: Some(IrType::String), slots: next }))
            },
            None => Ok(None),
        },
        Ok(_) => Ok(None),
    }
}

// ---------------------------------------------------------------------------
// Reduction of a let-bound list.
// ---------------------------------------------------------------------------

/// The fragment of `xs.reduce(init, (acc, elem) => body)` over the integer list
/// in let slot `list`.
pub open spec fn bound_list_reduce<L: SubLowering>(
    low: L,
    list: u32,
    init: Node,
    params: Seq<ClosureParam>,
    body: Node,
    range: TokenRange,
    scope: Scope<'_>,
    at: SlotsView,
) -> Result<FragmentView, ErrorView> {
    let base = at.lets;
    let count = slot_at(at.lets, 1);
    let payload = slot_at(at.lets, 2);
    let i = slot_at(at.lets, 3);
    let acc = slot_at(at.lets, 4);
    match valued(
        low.lowered(init, scope, at.after(5)),
        "materialised-list reduce: init produced no value"@,
        init.range,
    ) {
        Err(e) => Err(e),
        Ok(seed) => {
            let acc_ty = seed.ty->0;
            let elem_ty = if low.list_use(params[1].name@, *body.expr) {
                IrType::ListInt
            } else {
                IrType::I64
            };
            let acc_param = seed.slots.lets;
            let elem_param = slot_at(seed.slots.lets, 1);
            let raw = slot_at(seed.slots.lets, 2);
            match valued(
                low.lowered(
                    body,
                    scope.with(params[0].name, acc_param, acc_ty).with(
                        params[1].name,
                        elem_param,
                        elem_ty,
                    ),
                    seed.slots.after(3),
                ),
                "materialised-list reduce: body produced no value"@,
                body.range,
            ) {
                Err(e) => Err(e),
                Ok(f) => if f.ty->0.slot_spec() != acc_ty.slot_spec() {
                    Err(
                        ErrorView::UnsupportedExpr {
                            kind: "materialised-list reduce: body returned "@ + f.ty->0.tag()
                                + ", expected init type "@ + acc_ty.tag(),
                            range: body.range,
                        },
                    )
                } else {
                    Ok(
                        FragmentView {
                            ops: (seq![
                                let_get(list, IrType::ListInt, range),
                                let_set(base, IrType::ListInt, range),
                                let_get(base, IrType::ListInt, range),
                                sop(SimpleOp::LoadI32AtAbsolute { offset: 0 }, range),
                                let_set(count, IrType::I32, range),
                            ] + payload_address(base, IrType::ListInt, payload, range)
                                + seed.ops).push(let_set(acc, acc_ty, range)).push(
                                sop(SimpleOp::ConstI32(0), range),
                            ).push(let_set(i, IrType::I32, range)).push(
                                loop_op(
                                    ((exit_guard(i, count, IrType::I32, 1, range)
                                        + element_address(payload, i, range)).push(
                                        sop(SimpleOp::LoadI64AtAbsolute { offset: 0 }, range),
                                    ).push(let_set(raw, IrType::I64, range)).push(
                                        let_get(acc, acc_ty, range),
                                    ).push(let_set(acc_param, acc_ty, range)).push(
                                        let_get(raw, IrType::I64, range),
                                    ).push(let_set(elem_param, elem_ty, range)) + f.ops).push(
                                        let_set(acc, acc_ty, range),
                                    ) + bump_i32(i, range) + seq![
                                        sop(SimpleOp::Br { label_depth: 0 }, range),
                                    ],
                                    range,
                                ),
                            ).push(let_get(acc, acc_ty, range)),
                            ty: Some(acc_ty),
                            slots: f.slots,
                        },
                    )
                },
            }
        },
    }
}

/// The lowering of `xs.reduce(init, (acc, elem) => body)` where `xs` is a name
/// bound to an integer list.
pub open spec fn materialized_list_reduce<L: SubLowering>(
    low: L,
    path: Seq<TokenKey>,
    args: Seq<CallArg>,
    range: TokenRange,
    scope: Scope<'_>,
    at: SlotsView,
) -> Result<Option<FragmentView>, ErrorView> {
    if path.len() == 2 && args.len() == 2 && all_positional(args) && key_is(path[1], "reduce"@)
        && path[0] is String {
        match (fold_closure(args[1].value), scope.find(path[0]->String_0@)) {
            (Some((params, body)), Some(b)) => if b.ty == IrType::ListInt {
                fired(
                    bound_list_reduce(
                        low,
                        b.idx,
                        args[0].value,
                        params@,
                        *body,
                        range,
                        scope,
                        at,
                    ),
                )
            } else {
                Ok(None)
            },
            _ => Ok(None),
        }
    } else {
        Ok(None)
    }
}

fn emit_bound_list_reduce<L: SubLowering>(
    list: u32,
    init: &Node,
    params: &Vec<ClosureParam>,
    body: &Node,
    range: TokenRange,
    scope: &Scope<'_>,
    at: &Slots,
    low: &L,
) -> (r: Result<Fragment, LoweringError>)
    requires
        params@.len() == 2,
    ensures
        outcome(r) == bound_list_reduce(*low, list, *init, params@, *body, range, *scope, at@),
{
    let base_i: u32 = at.lets;
    let count_i: u32 = slot(at.lets, 1);
    let payload_i: u32 = slot(at.lets, 2);
    let i_i: u32 = slot(at.lets, 3);
    let acc_i: u32 = slot(at.lets, 4);
    let (seed, acc_ty) = match lower_valued(
        low,
        init,
        "materialised-list reduce: init produced no value",
        scope,
        &at.reserve(5),
    ) {
        Err(e) => {
            return Err(e);
        },
        Ok(v) => v,
    };
    let elem_ty = if low.closure_param_used_as_list_int(&params[1].name, &*body.expr) {
        IrType::ListInt
    } else {
        IrType::I64
    };
    let acc_param: u32 = seed.slots.lets;
    let elem_param: u32 = slot(seed.slots.lets, 1);
    let raw_i: u32 = slot(seed.slots.lets, 2);
    let with_acc = bind(scope, &params[0].name, acc_param, acc_ty);
    let with_elem = bind(&with_acc, &params[1].name, elem_param, elem_ty);
    let (f, produced) = match lower_valued(
        low,
        body,
        "materialised-list reduce: body produced no value",
        &with_elem,
        &seed.slots.reserve(3),
    ) {
        Err(e) => {
            return Err(e);
        },
        Ok(v) => v,
    };
    if produced.wasm_slot() != acc_ty.wasm_slot() {
        let kind: String = join3(
            "materialised-list reduce: body returned ",
            produced.name(),
            ", expected init type ",
        );
        return Err(
            LoweringError::UnsupportedExpr { kind: kind.concat(acc_ty.name()), range: body.range },
        );
    }
    let Fragment { ops: body_ops, slots, .. } = f;

    let mut loop_body: Vec<TaggedOp> = Vec::new();
    emit_exit_guard(i_i, count_i, IrType::I32, 1, range, &mut loop_body);
    assert(ops_view(loop_body@) =~= exit_guard(i_i, count_i, IrType::I32, 1, range));
    emit_element_address(payload_i, i_i, range, &mut loop_body);
    emit_simple(&mut loop_body, SimpleOp::LoadI64AtAbsolute { offset: 0 }, range);
    emit_set(&mut loop_body, raw_i, IrType::I64, range);
    emit_get(&mut loop_body, acc_i, acc_ty, range);
    emit_set(&mut loop_body, acc_param, acc_ty, range);
    emit_get(&mut loop_body, raw_i, IrType::I64, range);
    emit_set(&mut loop_body, elem_param, elem_ty, range);
    emit_all(&mut loop_body, body_ops);
    emit_set(&mut loop_body, acc_i, acc_ty, range);
    emit_bump_i32(i_i, range, &mut loop_body);
    let ghost before = ops_view(loop_body@);
    emit_simple(&mut loop_body, SimpleOp::Br { label_depth: 0 }, range);
    assert(ops_view(loop_body@) =~= before + seq![sop(SimpleOp::Br { label_depth: 0 }, range)]);

    let mut out: Vec<TaggedOp> = Vec::new();
    emit_get(&mut out, list, IrType::ListInt, range);
    emit_set(&mut out, base_i, IrType::ListInt, range);
    emit_get(&mut out, base_i, IrType::ListInt, range);
    emit_simple(&mut out, SimpleOp::LoadI32AtAbsolute { offset: 0 }, range);
    emit_set(&mut out, count_i, IrType::I32, range);
    assert(ops_view(out@) =~= seq![
        let_get(list, IrType::ListInt, range),
        let_set(base_i, IrType::ListInt, range),
        let_get(base_i, IrType::ListInt, range),
        sop(SimpleOp::LoadI32AtAbsolute { offset: 0 }, range),
        let_set(count_i, IrType::I32, range),
    ]);
    emit_payload_address(base_i, IrType::ListInt, payload_i, range, &mut out);
    emit_all(&mut out, seed.ops);
    emit_set(&mut out, acc_i, acc_ty, range);
    emit_simple(&mut out, SimpleOp::ConstI32(0), range);
    emit_set(&mut out, i_i, IrType::I32, range);
    emit_loop(loop_body, range, &mut out);
    emit_get(&mut out, acc_i, acc_ty, range);
    Ok(Fragment { ops: out, ty: Some(acc_ty), slots })
}

/// Lowers the reduction of a name bound to an integer list.
pub fn try_lower_materialized_list_reduce<L: SubLowering>(
    path: &Vec<TokenKey>,
    args: &Vec<CallArg>,
    range: TokenRange,
    scope: &Scope<'_>,
    at: &Slots,
    low: &L,
) -> (r: Result<Option<Fragment>, LoweringError>)
    ensures
        maybe_outcome(r) == materialized_list_reduce(*low, path@, args@, range, *scope, at@),
{
    if path.len() != 2 || args.len() != 2 || !positional_only(args) || !is_key(&path[1], "reduce") {
        return Ok(None);
    }
    let name: &String = match &path[0] {
        TokenKey::String(s, _, _) => s,
        _ => {
            return Ok(None);
        },
    };
    let (params, body) = match match_fold_closure(&args[1].value) {
        Some(c) => c,
        None => {
            return Ok(None);
        },
    };
    match scope.lookup(name) {
        Some(b) => match b.ty {
            IrType::ListInt => applied(
                emit_bound_list_reduce(
                    b.idx,
                    &args[0].value,
                    params,
                    body,
                    range,
                    scope,
                    at,
                    low,
                ),
            ),
            _ => Ok(None),
        },
        None => Ok(None),
    }
}

/// The name of a type comes behind the argument, which is evaluated in full and
/// put aside.
pub proof fn law_type_constant_evaluates_its_argument<L: SubLowering>(
    low: L,
    path: Seq<TokenKey>,
    args: Seq<CallArg>,
    range: TokenRange,
    scope: Scope<'_>,
    at: SlotsView,
)
    ensures
        type_const(low, path, args, range, scope, at) matches Ok(Some(f)) ==> ({
            &&& low.lowered(args[0].value, scope, at) matches Ok(arg)
            &&& arg.ty matches Some(ty)
            &&& arg.ops.is_prefix_of(f.ops)
            &&& f.ops.len() == arg.ops.len() + 2
            &&& f.ops[arg.ops.len() as int] == let_set(arg.slots.lets, ty, range)
            &&& f.ops.last().op matches OpView::ConstString { value, .. }
            &&& ty.user_text() == Some(value)
        }),
{
    match (type_const(low, path, args, range, scope, at), low.lowered(args[0].value, scope, at)) {
        (Ok(Some(f)), Ok(arg)) => {
            assert(arg.ops =~= f.ops.take(arg.ops.len() as int));
        },
        _ => {},
    }
}

} // verus!

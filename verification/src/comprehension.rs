//! List comprehensions: a filter pass for the condition, then a map pass for
//! the element, both over the list that the iterable lowers to.

use vstd::prelude::*;

use crate::ast::{Node, TokenRange};
use crate::error::{unsupported, ErrorView, LoweringError};
use crate::fragment::{
    expected_value, outcome, Fragment, FragmentView, Scope, Slots, SlotsView, SubLowering,
};
use crate::ir::{emit_all, ops_view, IrType, TaggedOp, TaggedOpView};
use crate::list_calls::{
    emit_routine_call, filter_routine, hof_element, hof_element_of, map_routines, map_routines_of,
    optional_name, optional_tag, routine_call, unknown_routine,
};
use crate::stdlib::StdlibTable;
use crate::text::{join2, join3};
use crate::types::TypeRepr;

verus! {

/// What follows a list operand in a pass over it: the closure `(id) => body`
/// and the call of the routine. The closure's result type is `ret_ty` where
/// given, else the one the routine declares.
pub open spec fn pass_tail<L: SubLowering>(
    low: L,
    table: StdlibTable,
    routine: Seq<char>,
    id: Seq<char>,
    body: Node,
    ret_ty: Option<IrType>,
    expected: Option<TypeRepr>,
    range: TokenRange,
    scope: Scope<'_>,
    at: SlotsView,
) -> Result<FragmentView, ErrorView> {
    match table.index_of(routine) {
        None => Err(unknown_routine(routine, 2, range)),
        Some(_) => match table.closure_sig(routine, 1) {
            None => Err(
                ErrorView::UnsupportedExpr {
                    kind: routine + " closure signature missing"@,
                    range,
                },
            ),
            Some((params, declared)) => {
                let ret = match ret_ty {
                    Some(t) => t,
                    None => declared,
                };
                match low.unary_lowered(id, body, params, ret, expected, scope, at) {
                    Err(e) => Err(e),
                    Ok(f) => routine_call(table, routine, 2, f.ops, range, f.slots),
                }
            },
        },
    }
}

fn emit_pass_tail<L: SubLowering>(
    routine: &str,
    id: &String,
    body: &Node,
    ret_ty: Option<IrType>,
    expected: Option<&TypeRepr>,
    range: TokenRange,
    scope: &Scope<'_>,
    at: &Slots,
    low: &L,
    table: &StdlibTable,
) -> (r: Result<Fragment, LoweringError>)
    requires
        table.wf(),
    ensures
        outcome(r) == pass_tail(
            *low,
            *table,
            routine@,
            id@,
            *body,
            ret_ty,
            expected_value(expected),
            range,
            *scope,
            at@,
        ),
{
    if table.stdlib_function_index(routine).is_none() {
        return Err(LoweringError::UnknownStdlibMethod { name: routine.to_owned(), arity: 2, range });
    }
    let sig = match table.stdlib_closure_arg_signature(routine, 1) {
        Some(sig) => sig,
        None => {
            return Err(
                LoweringError::UnsupportedExpr {
                    kind: join2(routine, " closure signature missing"),
                    range,
                },
            );
        },
    };
    let ret = match ret_ty {
        Some(t) => t,
        None => sig.ret,
    };
    match low.lower_unary(id, body, &sig.params, ret, expected, scope, at) {
        Err(e) => Err(e),
        Ok(Fragment { ops, slots, .. }) => emit_routine_call(table, routine, 2, ops, range, &slots),
    }
}

/// Lowers the map pass `(id) => body` with the closure's result pinned to
/// `ret_ty`; the list operand is already on the stack.
pub fn emit_map_with_ret<L: SubLowering>(
    builtin: &str,
    id: &String,
    body: &Node,
    ret_ty: IrType,
    range: TokenRange,
    scope: &Scope<'_>,
    at: &Slots,
    low: &L,
    table: &StdlibTable,
) -> (r: Result<Fragment, LoweringError>)
    requires
        table.wf(),
    ensures
        outcome(r) == pass_tail(
            *low,
            *table,
            builtin@,
            id@,
            *body,
            Some(ret_ty),
            None,
            range,
            *scope,
            at@,
        ),
{
    emit_pass_tail(builtin, id, body, Some(ret_ty), None, range, scope, at, low, table)
}

/// The map pass from candidate `from` on: the first routine that accepts the
/// body. A candidate of another result type is passed over silently; the last
/// other failure is what is reported when none accepts.
pub open spec fn map_pass<L: SubLowering>(
    low: L,
    table: StdlibTable,
    elem: IrType,
    src_ty: Option<IrType>,
    id: Seq<char>,
    body: Node,
    from: int,
    last: Option<ErrorView>,
    range: TokenRange,
    scope: Scope<'_>,
    at: SlotsView,
) -> Result<FragmentView, ErrorView>
    decreases map_routines(elem).len() - from,
{
    let routines = map_routines(elem);
    if from < 0 || from >= routines.len() {
        match last {
            Some(e) => Err(e),
            None => Err(
                ErrorView::UnsupportedExpr {
                    kind: "comprehension element type is not compiled yet for "@ + optional_tag(
                        src_ty,
                    ) + " source"@,
                    range,
                },
            ),
        }
    } else {
        let (ret_ty, name) = routines[from];
        match pass_tail(low, table, name, id, body, Some(ret_ty), None, range, scope, at) {
            Ok(f) => Ok(f),
            Err(ErrorView::StdlibArgTypeMismatch { .. }) => map_pass(
                low,
                table,
                elem,
                src_ty,
                id,
                body,
                from + 1,
                last,
                range,
                scope,
                at,
            ),
            Err(e) => map_pass(
                low,
                table,
                elem,
                src_ty,
                id,
                body,
                from + 1,
                Some(e),
                range,
                scope,
                at,
            ),
        }
    }
}

spec fn error_value(e: Option<LoweringError>) -> Option<ErrorView> {
    match e {
        Some(e) => Some(e@),
        None => None,
    }
}

fn emit_map_pass<L: SubLowering>(
    elem: IrType,
    src_ty: Option<IrType>,
    id: &String,
    body: &Node,
    range: TokenRange,
    scope: &Scope<'_>,
    at: &Slots,
    low: &L,
    table: &StdlibTable,
) -> (r: Result<Fragment, LoweringError>)
    requires
        table.wf(),
    ensures
        outcome(r) == map_pass(
            *low,
            *table,
            elem,
            src_ty,
            id@,
            *body,
            0,
            None,
            range,
            *scope,
            at@,
        ),
{
    let routines = map_routines_of(elem);
    let mut last: Option<LoweringError> = None;
    let mut i: usize = 0;
    while i < routines.len()
        invariant
            i <= routines.len(),
            table.wf(),
            routines@.len() == map_routines(elem).len(),
            forall|k: int|
                0 <= k < routines@.len() ==> map_routines(elem)[k] == (
                    (#[trigger] routines@[k]).0,
                    routines@[k].1@,
                ),
            map_pass(
                *low,
                *table,
                elem,
                src_ty,
                id@,
                *body,
                i as int,
                error_value(last),
                range,
                *scope,
                at@,
            ) == map_pass(
                *low,
                *table,
                elem,
                src_ty,
                id@,
                *body,
                0,
                None,
                range,
                *scope,
                at@,
            ),
        decreases routines.len() - i,
    {
        let (ret_ty, name) = routines[i];
        assert(map_routines(elem)[i as int] == (ret_ty, name@));
        match emit_map_with_ret(name, id, body, ret_ty, range, scope, at, low, table) {
            Ok(f) => {
                return Ok(f);
            },
            Err(e) => match e {
                LoweringError::StdlibArgTypeMismatch { .. } => {},
                other => {
                    last = Some(other);
                },
            },
        }
        i += 1;
    }
    match last {
        Some(e) => Err(e),
        None => {
            let shown = optional_name(src_ty);
            Err(
                LoweringError::UnsupportedExpr {
                    kind: join3(
                        "comprehension element type is not compiled yet for ",
                        shown.as_str(),
                        " source",
                    ),
                    range,
                },
            )
        },
    }
}

/// A value followed by what works on it.
pub open spec fn followed(head: Seq<TaggedOpView>, tail: Result<FragmentView, ErrorView>) -> Result<
    FragmentView,
    ErrorView,
> {
    match tail {
        Err(e) => Err(e),
        Ok(f) => Ok(FragmentView { ops: head + f.ops, ty: f.ty, slots: f.slots }),
    }
}

fn follow(head: Vec<TaggedOp>, tail: Result<Fragment, LoweringError>) -> (r: Result<
    Fragment,
    LoweringError,
>)
    ensures
        outcome(r) == followed(ops_view(head@), outcome(tail)),
{
    match tail {
        Err(e) => Err(e),
        Ok(Fragment { ops, ty, slots }) => {
            let mut out = head;
            emit_all(&mut out, ops);
            Ok(Fragment { ops: out, ty, slots })
        },
    }
}

/// The source list, filtered by the condition where there is one.
pub open spec fn filtered_source<L: SubLowering>(
    low: L,
    table: StdlibTable,
    src: FragmentView,
    routine: Option<Seq<char>>,
    id: Seq<char>,
    condition: Option<Node>,
    range: TokenRange,
    scope: Scope<'_>,
) -> Result<FragmentView, ErrorView> {
    match condition {
        None => Ok(src),
        Some(cond) => match routine {
            None => Err(
                ErrorView::UnsupportedExpr {
                    kind: "filtered List<String> comprehension is not compiled yet"@,
                    range,
                },
            ),
            Some(name) => followed(
                src.ops,
                pass_tail(
                    low,
                    table,
                    name,
                    id,
                    cond,
                    None,
                    None,
                    range,
                    scope,
                    src.slots,
                ),
            ),
        },
    }
}

/// The routine that filters lists of an element type.
pub fn filter_routine_of(elem: IrType) -> (r: Option<&'static str>)
    ensures
        match r {
            Some(t) => filter_routine(elem) == Some(t@),
            None => filter_routine(elem) is None,
        },
{
    match elem {
        IrType::I64 => Some("list_int_filter"),
        IrType::F64 => Some("list_float_filter"),
        _ => None,
    }
}

fn emit_filtered_source<L: SubLowering>(
    src: Fragment,
    routine: Option<&'static str>,
    id: &String,
    condition: Option<&Node>,
    range: TokenRange,
    scope: &Scope<'_>,
    low: &L,
    table: &StdlibTable,
) -> (r: Result<Fragment, LoweringError>)
    requires
        table.wf(),
    ensures
        outcome(r) == filtered_source(
            *low,
            *table,
            src@,
            (match routine {
                Some(t) => Some(t@),
                None => None,
            }),
            id@,
            (match condition {
                Some(c) => Some(*c),
                None => None,
            }),
            range,
            *scope,
        ),
{
    match condition {
        None => Ok(src),
        Some(cond) => match routine {
            None => Err(
                unsupported("filtered List<String> comprehension is not compiled yet", range),
            ),
            Some(name) => {
                let tail = emit_pass_tail(
                    name,
                    id,
                    cond,
                    None,
                    None,
                    range,
                    scope,
                    &src.slots,
                    low,
                    table,
                );
                follow(src.ops, tail)
            },
        },
    }
}

/// The lowering of `[element for id in iterable if condition]`.
pub open spec fn comprehension<L: SubLowering>(
    low: L,
    table: StdlibTable,
    element: Node,
    id: Seq<char>,
    iterable: Node,
    condition: Option<Node>,
    range: TokenRange,
    scope: Scope<'_>,
    at: SlotsView,
) -> Result<FragmentView, ErrorView> {
    match low.lowered(iterable, scope, at) {
        Err(e) => Err(e),
        Ok(src) => {
            let elem = match src.ty {
                Some(ty) => hof_element(ty),
                None => None,
            };
            match elem {
                None => Err(
                    ErrorView::UnsupportedExpr {
                        kind:
                            "comprehension iterable must be a List<Int>, List<Float>, or List<String> in the AOT envelope, got "@
                            + optional_tag(src.ty),
                        range: iterable.range,
                    },
                ),
                Some(elem) => match filtered_source(
                    low,
                    table,
                    src,
                    filter_routine(elem),
                    id,
                    condition,
                    range,
                    scope,
                ) {
                    Err(e) => Err(e),
                    Ok(list) => followed(
                        list.ops,
                        map_pass(
                            low,
                            table,
                            elem,
                            src.ty,
                            id,
                            element,
                            0,
                            None,
                            range,
                            scope,
                            list.slots,
                        ),
                    ),
                },
            }
        },
    }
}

/// Lowers a list comprehension.
pub fn lower_comprehension<L: SubLowering>(
    element: &Node,
    id: &String,
    iterable: &Node,
    condition: Option<&Node>,
    range: TokenRange,
    scope: &Scope<'_>,
    at: &Slots,
    low: &L,
    table: &StdlibTable,
) -> (r: Result<Fragment, LoweringError>)
    requires
        table.wf(),
    ensures
        outcome(r) == comprehension(
            *low,
            *table,
            *element,
            id@,
            *iterable,
            (match condition {
                Some(c) => Some(*c),
                None => None,
            }),
            range,
            *scope,
            at@,
        ),
{
    let src = match low.lower_node(iterable, scope, at) {
        Err(e) => {
            return Err(e);
        },
        Ok(f) => f,
    };
    let src_ty = src.ty;
    let elem = match src_ty {
        Some(ty) => hof_element_of(ty),
        None => None,
    };
    match elem {
        None => {
            let shown = optional_name(src_ty);
            Err(
                LoweringError::UnsupportedExpr {
                    kind: join2(
                        "comprehension iterable must be a List<Int>, List<Float>, or List<String> in the AOT envelope, got ",
                        shown.as_str(),
                    ),
                    range: iterable.range,
                },
            )
        },
        Some(elem) => match emit_filtered_source(
            src,
            filter_routine_of(elem),
            id,
            condition,
            range,
            scope,
            low,
            table,
        ) {
            Err(e) => Err(e),
            Ok(list) => {
                let tail = emit_map_pass(
                    elem,
                    src_ty,
                    id,
                    element,
                    range,
                    scope,
                    &list.slots,
                    low,
                    table,
                );
                follow(list.ops, tail)
            },
        },
    }
}

/// The routine that maps a list type to a list of variant records.
pub open spec fn variant_map_routine(ty: Option<IrType>) -> Option<Seq<char>> {
    match ty {
        Some(IrType::ListInt) => Some("list_int_map_to_variant_list"@),
        Some(IrType::ListFloat) => Some("list_float_map_to_variant_list"@),
        Some(IrType::ListString) => Some("list_string_map_to_variant_list"@),
        _ => None,
    }
}

/// The lowering of a comprehension whose elements are variant records of the
/// expected type.
pub open spec fn variant_comprehension<L: SubLowering>(
    low: L,
    table: StdlibTable,
    expected: TypeRepr,
    element: Node,
    id: Seq<char>,
    iterable: Node,
    condition: Option<Node>,
    range: TokenRange,
    scope: Scope<'_>,
    at: SlotsView,
) -> Result<FragmentView, ErrorView> {
    match low.lowered(iterable, scope, at) {
        Err(e) => Err(e),
        Ok(src) => match variant_map_routine(src.ty) {
            None => Err(
                ErrorView::UnsupportedExpr {
                    kind:
                        "comprehension iterable must be List<Int>, List<Float>, or List<String> for variant-list output, got "@
                        + optional_tag(src.ty),
                    range: iterable.range,
                },
            ),
            Some(routine) => match filtered_source(
                low,
                table,
                src,
                filter_routine(hof_element(src.ty->0)->0),
                id,
                condition,
                range,
                scope,
            ) {
                Err(e) => Err(e),
                Ok(list) => followed(
                    list.ops,
                    pass_tail(
                        low,
                        table,
                        routine,
                        id,
                        element,
                        None,
                        Some(expected),
                        range,
                        scope,
                        list.slots,
                    ),
                ),
            },
        },
    }
}

/// Lowers a comprehension of variant records.
pub fn lower_comprehension_as_type<L: SubLowering>(
    expected_element: &TypeRepr,
    element: &Node,
    id: &String,
    iterable: &Node,
    condition: Option<&Node>,
    range: TokenRange,
    scope: &Scope<'_>,
    at: &Slots,
    low: &L,
    table: &StdlibTable,
) -> (r: Result<Fragment, LoweringError>)
    requires
        table.wf(),
    ensures
        outcome(r) == variant_comprehension(
            *low,
            *table,
            *expected_element,
            *element,
            id@,
            *iterable,
            (match condition {
                Some(c) => Some(*c),
                None => None,
            }),
            range,
            *scope,
            at@,
        ),
{
    let src = match low.lower_node(iterable, scope, at) {
        Err(e) => {
            return Err(e);
        },
        Ok(f) => f,
    };
    let src_ty = src.ty;
    let (filter, routine): (Option<&'static str>, &'static str) = match src_ty {
        Some(IrType::ListInt) => (Some("list_int_filter"), "list_int_map_to_variant_list"),
        Some(IrType::ListFloat) => (Some("list_float_filter"), "list_float_map_to_variant_list"),
        Some(IrType::ListString) => (None, "list_string_map_to_variant_list"),
        other => {
            let shown = optional_name(other);
            return Err(
                LoweringError::UnsupportedExpr {
                    kind: join2(
                        "comprehension iterable must be List<Int>, List<Float>, or List<String> for variant-list output, got ",
                        shown.as_str(),
                    ),
                    range: iterable.range,
                },
            );
        },
    };
    match emit_filtered_source(src, filter, id, condition, range, scope, low, table) {
        Err(e) => Err(e),
        Ok(list) => {
            let tail = emit_pass_tail(
                routine,
                id,
                element,
                None,
                Some(expected_element),
                range,
                scope,
                &list.slots,
                low,
                table,
            );
            follow(list.ops, tail)
        },
    }
}

} // verus!

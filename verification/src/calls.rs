//! Lowering of calls: local closures, the fused list forms, bundled routines,
//! host functions and methods.

use vstd::prelude::*;
use vstd::slice::slice_subrange;

use crate::ast::{plain_name, single_name, CallArg, Expr, Node, TokenKey, TokenRange};
use crate::chain::StageMethod;
use crate::error::{unsupported, ErrorView, LoweringError};
use crate::fragment::{
    emit_get, let_get, maybe_outcome, outcome, valued, ClosureSig, Fragment,
    FragmentView, LeafLowering, Scope, SigView, Slots, SlotsView, SubLowering,
};
use crate::ir::{copy_types, emit, emit_all, ops_view, IrType, Op, OpView, TaggedOp, TaggedOpView};
use crate::list_calls::{
    emit_list_hof_method, hof_method, list_filter, list_len, list_map, list_reduce, list_sum_value,
    materialized_list_reduce, try_lower_list_filter, try_lower_list_len, try_lower_list_map,
    try_lower_list_reduce, try_lower_list_sum_value, try_lower_materialized_list_reduce,
    try_lower_type_const, type_const,
};
use crate::materialize::{range_value, try_lower_range_value};
use crate::names::NameTable;
use crate::native_import::{native_call, try_lower_native_call, HostFnEntry};
use crate::range_calls::{
    len_filter_range, list_sum_range, nested_range_map_reduce, range_chain_len, range_chain_reduce,
    try_lower_len_filter_range, try_lower_list_sum_range, try_lower_nested_range_map_reduce,
    try_lower_range_chain_len, try_lower_range_chain_reduce,
};
use crate::records::RecordLowering;
use crate::reference::appended;
use crate::stdlib::StdlibTable;
use crate::text::{decimal, decimal_chars, join3, same_text};

verus! {

/// Call forms whose lowering depends on the type of their operands.
#[derive(Clone, Copy, Debug, PartialEq, Eq, Structural)]
pub enum SpecialCall {
    /// `count(xs)`.
    Count,
    /// `every(xs, p)` and `some(xs, p)`.
    Quantifier,
    /// `unique(xs)`.
    Unique,
    /// `abs`, `floor`, `ceil`, `round` and `sqrt`.
    ScalarMath,
    /// `multiple_of` and `in_range`.
    PredicateMath,
    /// `size_in_range`.
    SizeInRange,
}

/// The mathematical value of a lowered receiver.
pub open spec fn receiver_outcome(r: Result<(Fragment, Option<String>), LoweringError>) -> Result<
    (FragmentView, Option<Seq<char>>),
    ErrorView,
> {
    match r {
        Ok((f, brand)) => Ok(
            (
                f@,
                match brand {
                    Some(b) => Some(b@),
                    None => None,
                },
            ),
        ),
        Err(e) => Err(e@),
    }
}

/// The mathematical value of the rest of a method call.
pub open spec fn call_outcome(r: Option<Result<Fragment, LoweringError>>) -> Option<
    Result<FragmentView, ErrorView>,
> {
    match r {
        Some(r) => Some(outcome(r)),
        None => None,
    }
}

/// What the lowering of calls asks for beyond [`RecordLowering`]. Each method
/// answers as a function of its arguments.
pub trait CallLowering: RecordLowering {
    /// A call of a form that depends on the type of its operands.
    spec fn special(
        &self,
        which: SpecialCall,
        path: Seq<TokenKey>,
        args: Seq<CallArg>,
        range: TokenRange,
        scope: Scope<'_>,
        at: SlotsView,
    ) -> Result<Option<FragmentView>, ErrorView>;

    /// Lowers such a call; `None` where the call is not of the form.
    fn try_special(
        &self,
        which: SpecialCall,
        path: &Vec<TokenKey>,
        args: &Vec<CallArg>,
        range: TokenRange,
        scope: &Scope<'_>,
        at: &Slots,
    ) -> (r: Result<Option<Fragment>, LoweringError>)
        ensures
            maybe_outcome(r) == self.special(which, path@, args@, range, *scope, at@),
    ;

    /// An argument of a bundled routine; `lowered` is what its lowering as an
    /// expression gives.
    spec fn stdlib_arg(
        &self,
        routine: Seq<char>,
        index: int,
        value: Node,
        lowered: Result<FragmentView, ErrorView>,
        params: Seq<IrType>,
        range: TokenRange,
        scope: Scope<'_>,
        at: SlotsView,
    ) -> Result<FragmentView, ErrorView>;

    /// Lowers an argument of a bundled routine.
    fn lower_stdlib_arg(
        &self,
        routine: &String,
        index: usize,
        value: &Node,
        lowered: Result<Fragment, LoweringError>,
        params: &Vec<IrType>,
        range: TokenRange,
        scope: &Scope<'_>,
        at: &Slots,
    ) -> (r: Result<Fragment, LoweringError>)
        ensures
            outcome(r) == self.stdlib_arg(
                routine@,
                index as int,
                *value,
                outcome(lowered),
                params@,
                range,
                *scope,
                at@,
            ),
    ;

    /// The receiver of a method call and its record brand.
    spec fn receiver(
        &self,
        segments: Seq<TokenKey>,
        range: TokenRange,
        scope: Scope<'_>,
        at: SlotsView,
    ) -> Result<(FragmentView, Option<Seq<char>>), ErrorView>;

    /// Lowers the receiver of a method call.
    fn lower_method_receiver(
        &self,
        segments: &[TokenKey],
        range: TokenRange,
        scope: &Scope<'_>,
        at: &Slots,
    ) -> (r: Result<(Fragment, Option<String>), LoweringError>)
        ensures
            receiver_outcome(r) == self.receiver(segments@, range, *scope, at@),
    ;

    /// The routine behind a method of a builtin type.
    spec fn method_index(&self, receiver: IrType, name: Seq<char>) -> Option<u32>;

    /// Executable form of [`CallLowering::method_index`].
    fn stdlib_method_index(&self, receiver: IrType, name: &String) -> (r: Option<u32>)
        ensures
            r == self.method_index(receiver, name@),
    ;

    /// The rest of a call of a declared method behind its receiver, if the
    /// record type has the method.
    spec fn schema_call(
        &self,
        brand: Seq<char>,
        method: Seq<char>,
        args: Seq<CallArg>,
        range: TokenRange,
        scope: Scope<'_>,
        at: SlotsView,
    ) -> Option<Result<FragmentView, ErrorView>>;

    /// Lowers the rest of a call of a declared method.
    fn finish_schema_method_call(
        &self,
        brand: &String,
        method: &String,
        args: &Vec<CallArg>,
        range: TokenRange,
        scope: &Scope<'_>,
        at: &Slots,
    ) -> (r: Option<Result<Fragment, LoweringError>>)
        ensures
            call_outcome(r) == self.schema_call(brand@, method@, args@, range, *scope, at@),
    ;

    /// The conversion of the scalar on the stack to a string.
    spec fn rendered(&self, ty: IrType, range: TokenRange, at: SlotsView) -> Result<
        FragmentView,
        ErrorView,
    >;

    /// Lowers the conversion of the scalar on the stack to a string.
    fn lower_value_to_string(&self, ty: IrType, range: TokenRange, at: &Slots) -> (r: Result<
        Fragment,
        LoweringError,
    >)
        ensures
            outcome(r) == self.rendered(ty, range, at@),
    ;
}

// ---------------------------------------------------------------------------
// Local closures.
// ---------------------------------------------------------------------------

/// A scalar that may be rendered as a string before the call.
pub open spec fn renders(sig: SigView, i: int, got: IrType) -> bool {
    &&& sig.params[i] == IrType::String
    &&& got == IrType::I64 || got == IrType::F64 || got == IrType::Bool
    &&& i < sig.coercible.len()
    &&& sig.coercible[i]
}

fn may_render(sig: &ClosureSig, i: usize, got: IrType) -> (r: bool)
    requires
        i < sig.params@.len(),
    ensures
        r == renders(sig@, i as int, got),
{
    sig.params[i] == IrType::String && (got == IrType::I64 || got == IrType::F64 || got
        == IrType::Bool) && i < sig.coercible.len() && sig.coercible[i]
}

/// The text of an error about a local closure.
pub open spec fn closure_text(name: Seq<char>, tail: Seq<char>) -> Seq<char> {
    "FnCall(local-closure `"@ + name + tail
}

/// The arguments at and behind `from`, behind the instructions `done`.
pub open spec fn closure_args<L: CallLowering>(
    low: L,
    name: Seq<char>,
    sig: SigView,
    args: Seq<CallArg>,
    range: TokenRange,
    scope: Scope<'_>,
    done: Seq<TaggedOpView>,
    at: SlotsView,
    from: int,
) -> Result<FragmentView, ErrorView>
    decreases args.len() - from,
{
    if from < 0 || from >= args.len() {
        Ok(FragmentView { ops: done, ty: None, slots: at })
    } else if args[from].name is Some {
        Err(
            ErrorView::UnsupportedExpr {
                kind: closure_text(name, "`: named-arg unsupported)"@),
                range,
            },
        )
    } else {
        match low.lowered(args[from].value, scope, at) {
            Err(e) => Err(e),
            Ok(f) => match f.ty {
                None => Err(
                    ErrorView::UnsupportedExpr {
                        kind: closure_text(
                            name,
                            "`: arg "@ + decimal_chars(from as nat) + " produced no value)"@,
                        ),
                        range,
                    },
                ),
                Some(got) => if got.slot_spec() == sig.params[from].slot_spec() {
                    closure_args(
                        low,
                        name,
                        sig,
                        args,
                        range,
                        scope,
                        done + f.ops,
                        f.slots,
                        from + 1,
                    )
                } else if renders(sig, from, got) {
                    match low.rendered(got, args[from].value.range, f.slots) {
                        Err(e) => Err(e),
                        Ok(text) => closure_args(
                            low,
                            name,
                            sig,
                            args,
                            range,
                            scope,
                            done + f.ops + text.ops,
                            text.slots,
                            from + 1,
                        ),
                    }
                } else {
                    Err(
                        ErrorView::StdlibArgTypeMismatch {
                            name,
                            arg_idx: from as usize,
                            got,
                            expected: sig.params[from],
                            range,
                        },
                    )
                },
            },
        }
    }
}

fn lower_closure_args<L: CallLowering>(
    name: &String,
    sig: &ClosureSig,
    args: &Vec<CallArg>,
    range: TokenRange,
    scope: &Scope<'_>,
    head: Vec<TaggedOp>,
    at: &Slots,
    low: &L,
) -> (r: Result<Fragment, LoweringError>)
    requires
        args@.len() == sig.params@.len(),
    ensures
        outcome(r) == closure_args(
            *low,
            name@,
            sig@,
            args@,
            range,
            *scope,
            ops_view(head@),
            at@,
            0,
        ),
{
    let mut out: Vec<TaggedOp> = head;
    let mut slots: Slots = at.copy();
    let mut i: usize = 0;
    let ghost whole = closure_args(
        *low,
        name@,
        sig@,
        args@,
        range,
        *scope,
        ops_view(head@),
        at@,
        0,
    );
    while i < args.len()
        invariant
            i <= args@.len(),
            args@.len() == sig.params@.len(),
            whole == closure_args(
                *low,
                name@,
                sig@,
                args@,
                range,
                *scope,
                ops_view(head@),
                at@,
                0,
            ),
            whole == closure_args(
                *low,
                name@,
                sig@,
                args@,
                range,
                *scope,
                ops_view(out@),
                slots@,
                i as int,
            ),
        decreases args@.len() - i,
    {
        let arg = &args[i];
        if arg.name.is_some() {
            return Err(
                LoweringError::UnsupportedExpr {
                    kind: join3(
                        "FnCall(local-closure `",
                        name.as_str(),
                        "`: named-arg unsupported)",
                    ),
                    range,
                },
            );
        }
        let f: Fragment = match low.lower_node(&arg.value, scope, &slots) {
            Err(e) => {
                return Err(e);
            },
            Ok(f) => f,
        };
        let got: IrType = match f.ty {
            None => {
                let tail: String = join3("`: arg ", decimal(i).as_str(), " produced no value)");
                return Err(
                    LoweringError::UnsupportedExpr {
                        kind: join3("FnCall(local-closure `", name.as_str(), tail.as_str()),
                        range,
                    },
                );
            },
            Some(t) => t,
        };
        let Fragment { ops, slots: behind, .. } = f;
        if got.wasm_slot() == sig.params[i].wasm_slot() {
            emit_all(&mut out, ops);
            slots = behind;
        } else if may_render(sig, i, got) {
            match low.lower_value_to_string(got, arg.value.range, &behind) {
                Err(e) => {
                    return Err(e);
                },
                Ok(text) => {
                    let Fragment { ops: more, slots: later, .. } = text;
                    emit_all(&mut out, ops);
                    emit_all(&mut out, more);
                    slots = later;
                },
            }
        } else {
            return Err(
                LoweringError::StdlibArgTypeMismatch {
                    name: name.clone(),
                    arg_idx: i,
                    got,
                    expected: sig.params[i],
                    range,
                },
            );
        }
        i += 1;
    }
    Ok(Fragment { ops: out, ty: None, slots })
}

/// The call of a closure that a let binding holds; `None` where the path names
/// none.
pub open spec fn local_closure_call<L: CallLowering>(
    low: L,
    path: Seq<TokenKey>,
    args: Seq<CallArg>,
    range: TokenRange,
    scope: Scope<'_>,
    at: SlotsView,
) -> Result<Option<FragmentView>, ErrorView> {
    match plain_name(path) {
        None => Ok(None),
        Some(name) => match scope.find(name) {
            None => Ok(None),
            Some(b) => if b.ty != IrType::Closure {
                Ok(None)
            } else {
                match b.closure {
                    None => Err(
                        ErrorView::UnsupportedExpr {
                            kind: closure_text(
                                name,
                                "`: signature side-table missing for let_idx "@ + decimal_chars(
                                    b.idx as nat,
                                ) + ")"@,
                            ),
                            range,
                        },
                    ),
                    Some(sig) => if args.len() != sig.params@.len() {
                        Err(
                            ErrorView::UnknownStdlibMethod {
                                name,
                                arity: args.len() as usize,
                                range,
                            },
                        )
                    } else {
                        match closure_args(
                            low,
                            name,
                            sig@,
                            args,
                            range,
                            scope,
                            seq![let_get(b.idx, IrType::Closure, range)],
                            at,
                            0,
                        ) {
                            Err(e) => Err(e),
                            Ok(f) => Ok(
                                Some(
                                    FragmentView {
                                        ops: f.ops.push(
                                            TaggedOpView {
                                                op: OpView::CallClosure {
                                                    param_tys: sig.params@,
                                                    ret_ty: sig.ret,
                                                },
                                                range,
                                            },
                                        ),
                                        ty: Some(sig.ret),
                                        slots: f.slots,
                                    },
                                ),
                            ),
                        }
                    },
                }
            },
        },
    }
}

/// Lowers the call of a closure that a let binding holds.
pub fn try_lower_local_closure_call<L: CallLowering>(
    path: &Vec<TokenKey>,
    args: &Vec<CallArg>,
    range: TokenRange,
    scope: &Scope<'_>,
    at: &Slots,
    low: &L,
) -> (r: Result<Option<Fragment>, LoweringError>)
    ensures
        maybe_outcome(r) == local_closure_call(*low, path@, args@, range, *scope, at@),
{
    let name: &String = match single_name(path) {
        None => {
            return Ok(None);
        },
        Some(n) => n,
    };
    let b = match scope.lookup(name) {
        None => {
            return Ok(None);
        },
        Some(b) => b,
    };
    if b.ty != IrType::Closure {
        return Ok(None);
    }
    let sig: &ClosureSig = match b.closure {
        None => {
            let tail: String = join3(
                "`: signature side-table missing for let_idx ",
                decimal(b.idx as usize).as_str(),
                ")",
            );
            return Err(
                LoweringError::UnsupportedExpr {
                    kind: join3("FnCall(local-closure `", name.as_str(), tail.as_str()),
                    range,
                },
            );
        },
        Some(s) => s,
    };
    if args.len() != sig.params.len() {
        return Err(
            LoweringError::UnknownStdlibMethod { name: name.clone(), arity: args.len(), range },
        );
    }
    let mut head: Vec<TaggedOp> = Vec::new();
    emit_get(&mut head, b.idx, IrType::Closure, range);
    assert(ops_view(head@) =~= seq![let_get(b.idx, IrType::Closure, range)]);
    match lower_closure_args(name, sig, args, range, scope, head, at, low) {
        Err(e) => Err(e),
        Ok(f) => {
            let Fragment { ops, slots, .. } = f;
            let mut out: Vec<TaggedOp> = ops;
            emit(
                &mut out,
                Op::CallClosure { param_tys: copy_types(&sig.params), ret_ty: sig.ret },
                range,
            );
            Ok(Some(Fragment { ops: out, ty: Some(sig.ret), slots }))
        },
    }
}

// ---------------------------------------------------------------------------
// Bundled routines.
// ---------------------------------------------------------------------------

/// The error for an unknown routine or method.
pub open spec fn unknown_method(name: Seq<char>, arity: int, range: TokenRange) -> ErrorView {
    ErrorView::UnknownStdlibMethod { name, arity: arity as usize, range }
}

fn method_error(name: &String, arity: usize, range: TokenRange) -> (e: LoweringError)
    ensures
        e@ == unknown_method(name@, arity as int, range),
{
    LoweringError::UnknownStdlibMethod { name: name.clone(), arity, range }
}

/// The arguments at and behind `from` of a routine; the first one fills the
/// parameter `shift`.
pub open spec fn routine_args<L: CallLowering>(
    low: L,
    method: Seq<char>,
    routine: Seq<char>,
    params: Seq<IrType>,
    shift: int,
    args: Seq<CallArg>,
    range: TokenRange,
    scope: Scope<'_>,
    done: Seq<TaggedOpView>,
    at: SlotsView,
    from: int,
) -> Result<FragmentView, ErrorView>
    decreases args.len() - from,
{
    if from < 0 || from >= args.len() {
        Ok(FragmentView { ops: done, ty: None, slots: at })
    } else if args[from].name is Some {
        Err(
            ErrorView::UnsupportedExpr {
                kind: "FnCall(named-arg `"@ + method + "` for stdlib)"@,
                range,
            },
        )
    } else {
        match low.stdlib_arg(
            routine,
            from + shift,
            args[from].value,
            low.lowered(args[from].value, scope, at),
            params,
            range,
            scope,
            at,
        ) {
            Err(e) => Err(e),
            Ok(f) => routine_args(
                low,
                method,
                routine,
                params,
                shift,
                args,
                range,
                scope,
                done + f.ops,
                f.slots,
                from + 1,
            ),
        }
    }
}

fn lower_routine_args<L: CallLowering>(
    method: &String,
    routine: &String,
    params: &Vec<IrType>,
    shift: usize,
    args: &Vec<CallArg>,
    range: TokenRange,
    scope: &Scope<'_>,
    head: Vec<TaggedOp>,
    at: &Slots,
    low: &L,
) -> (r: Result<Fragment, LoweringError>)
    requires
        args@.len() + shift <= usize::MAX,
    ensures
        outcome(r) == routine_args(
            *low,
            method@,
            routine@,
            params@,
            shift as int,
            args@,
            range,
            *scope,
            ops_view(head@),
            at@,
            0,
        ),
{
    let mut out: Vec<TaggedOp> = head;
    let mut slots: Slots = at.copy();
    let mut i: usize = 0;
    let ghost whole = routine_args(
        *low,
        method@,
        routine@,
        params@,
        shift as int,
        args@,
        range,
        *scope,
        ops_view(head@),
        at@,
        0,
    );
    while i < args.len()
        invariant
            i <= args@.len(),
            args@.len() + shift <= usize::MAX,
            whole == routine_args(
                *low,
                method@,
                routine@,
                params@,
                shift as int,
                args@,
                range,
                *scope,
                ops_view(head@),
                at@,
                0,
            ),
            whole == routine_args(
                *low,
                method@,
                routine@,
                params@,
                shift as int,
                args@,
                range,
                *scope,
                ops_view(out@),
                slots@,
                i as int,
            ),
        decreases args@.len() - i,
    {
        if args[i].name.is_some() {
            return Err(
                LoweringError::UnsupportedExpr {
                    kind: join3("FnCall(named-arg `", method.as_str(), "` for stdlib)"),
                    range,
                },
            );
        }
        let lowered = low.lower_node(&args[i].value, scope, &slots);
        match low.lower_stdlib_arg(
            routine,
            i + shift,
            &args[i].value,
            lowered,
            params,
            range,
            scope,
            &slots,
        ) {
            Err(e) => {
                return Err(e);
            },
            Ok(f) => {
                let Fragment { ops, slots: behind, .. } = f;
                emit_all(&mut out, ops);
                slots = behind;
            },
        }
        i += 1;
    }
    Ok(Fragment { ops: out, ty: None, slots })
}

/// The call of the routine `index` behind its operands.
pub open spec fn routine_called(
    table: StdlibTable,
    index: int,
    arity: int,
    operands: Result<FragmentView, ErrorView>,
    range: TokenRange,
) -> Result<FragmentView, ErrorView> {
    match operands {
        Err(e) => Err(e),
        Ok(f) => Ok(
            FragmentView {
                ops: f.ops.push(
                    TaggedOpView {
                        op: OpView::Call {
                            fn_index: index as u32,
                            arg_count: arity as u32,
                            param_tys: table.entries@[index].params@,
                            ret_ty: table.entries@[index].ret,
                        },
                        range,
                    },
                ),
                ty: Some(table.entries@[index].ret),
                slots: f.slots,
            },
        ),
    }
}

fn call_routine(
    table: &StdlibTable,
    index: u32,
    arity: u32,
    operands: Result<Fragment, LoweringError>,
    range: TokenRange,
) -> (r: Result<Fragment, LoweringError>)
    requires
        index < table.entries@.len(),
    ensures
        outcome(r) == routine_called(
            *table,
            index as int,
            arity as int,
            outcome(operands),
            range,
        ),
{
    match operands {
        Err(e) => Err(e),
        Ok(f) => {
            let entry = &table.entries[index as usize];
            let Fragment { ops, slots, .. } = f;
            let mut out: Vec<TaggedOp> = ops;
            emit(
                &mut out,
                Op::Call {
                    fn_index: index,
                    arg_count: arity,
                    param_tys: copy_types(&entry.params),
                    ret_ty: entry.ret,
                },
                range,
            );
            Ok(Fragment { ops: out, ty: Some(entry.ret), slots })
        },
    }
}

/// A call by a bare name: a bundled routine, or else a host function.
pub open spec fn free_call<L: CallLowering>(
    low: L,
    table: StdlibTable,
    resolved: NameTable<HostFnEntry>,
    name: Seq<char>,
    args: Seq<CallArg>,
    range: TokenRange,
    scope: Scope<'_>,
    at: SlotsView,
) -> Result<FragmentView, ErrorView> {
    let arity = args.len() as int;
    match table.index_of(name) {
        None => match native_call(low, resolved, name, args, range, scope, at) {
            Err(e) => Err(e),
            Ok(Some(f)) => Ok(f),
            Ok(None) => Err(unknown_method(name, arity, range)),
        },
        Some(i) => if table.entries@[i].params@.len() != arity {
            Err(unknown_method(name, arity, range))
        } else {
            routine_called(
                table,
                i,
                arity,
                routine_args(
                    low,
                    name,
                    table.entries@[i].name@,
                    table.entries@[i].params@,
                    0,
                    args,
                    range,
                    scope,
                    Seq::empty(),
                    at,
                    0,
                ),
                range,
            )
        },
    }
}

fn lower_free_call<L: CallLowering>(
    name: &String,
    args: &Vec<CallArg>,
    range: TokenRange,
    scope: &Scope<'_>,
    at: &Slots,
    low: &L,
    table: &StdlibTable,
    resolved: &NameTable<HostFnEntry>,
) -> (r: Result<Fragment, LoweringError>)
    requires
        table.wf(),
        args@.len() < u32::MAX,
    ensures
        outcome(r) == free_call(*low, *table, *resolved, name@, args@, range, *scope, at@),
{
    match table.stdlib_function_index(name.as_str()) {
        None => match try_lower_native_call(
            name.as_str(),
            args,
            range,
            scope,
            at,
            low,
            resolved,
        ) {
            Err(e) => Err(e),
            Ok(Some(f)) => Ok(f),
            Ok(None) => Err(method_error(name, args.len(), range)),
        },
        Some(i) => {
            let entry = &table.entries[i as usize];
            if entry.params.len() != args.len() {
                return Err(method_error(name, args.len(), range));
            }
            let head: Vec<TaggedOp> = Vec::new();
            assert(ops_view(head@) =~= Seq::empty());
            let operands = lower_routine_args(
                name,
                &entry.name,
                &entry.params,
                0,
                args,
                range,
                scope,
                head,
                at,
                low,
            );
            call_routine(table, i, args.len() as u32, operands, range)
        },
    }
}

// ---------------------------------------------------------------------------
// Methods.
// ---------------------------------------------------------------------------

/// The list form of a method, if it is `map` or `filter`.
pub open spec fn hof_kind(name: Seq<char>) -> Option<StageMethod> {
    if name == "map"@ {
        Some(StageMethod::Transform)
    } else if name == "filter"@ {
        Some(StageMethod::Retain)
    } else {
        None
    }
}

fn find_hof_kind(name: &String) -> (r: Option<StageMethod>)
    ensures
        r == hof_kind(name@),
{
    if same_text(name.as_str(), "map") {
        Some(StageMethod::Transform)
    } else if same_text(name.as_str(), "filter") {
        Some(StageMethod::Retain)
    } else {
        None
    }
}

/// The list receivers of `map` and `filter`.
pub open spec fn hof_receiver(ty: IrType) -> bool {
    ty == IrType::ListInt || ty == IrType::ListFloat || ty == IrType::ListString
}

/// The call of `map` or `filter` behind a list receiver; `None` where the call
/// is none or no routine fits.
pub open spec fn method_hof<L: CallLowering>(
    low: L,
    table: StdlibTable,
    receiver: IrType,
    name: Seq<char>,
    args: Seq<CallArg>,
    range: TokenRange,
    scope: Scope<'_>,
    at: SlotsView,
) -> Result<Option<FragmentView>, ErrorView> {
    match hof_kind(name) {
        Some(kind) => if hof_receiver(receiver) && args.len() == 1 && args[0].name is None {
            hof_method(low, table, kind, receiver, args[0].value, range, scope, at)
        } else {
            Ok(None)
        },
        None => Ok(None),
    }
}

fn try_method_hof<L: CallLowering>(
    receiver: IrType,
    name: &String,
    args: &Vec<CallArg>,
    range: TokenRange,
    scope: &Scope<'_>,
    at: &Slots,
    low: &L,
    table: &StdlibTable,
) -> (r: Result<Option<Fragment>, LoweringError>)
    requires
        table.wf(),
    ensures
        maybe_outcome(r) == method_hof(
            *low,
            *table,
            receiver,
            name@,
            args@,
            range,
            *scope,
            at@,
        ),
{
    match find_hof_kind(name) {
        Some(kind) => if (receiver == IrType::ListInt || receiver == IrType::ListFloat || receiver
            == IrType::ListString) && args.len() == 1 && args[0].name.is_none() {
            emit_list_hof_method(kind, receiver, &args[0].value, range, scope, at, low, table)
        } else {
            Ok(None)
        },
        None => Ok(None),
    }
}

/// The separator of a split is a string literal that is not empty.
pub open spec fn sound_separator(args: Seq<CallArg>) -> bool {
    args.len() > 0 && (*args[0].value.expr matches Expr::String(s) && s@.len() > 0)
}

fn has_sound_separator(args: &Vec<CallArg>) -> (r: bool)
    ensures
        r == sound_separator(args@),
{
    if args.len() == 0 {
        return false;
    }
    match &*args[0].value.expr {
        Expr::String(s) => {
            let empty: String = String::new();
            assert(empty@ =~= Seq::<char>::empty());
            let is_empty: bool = *s == empty;
            assert(s@.len() == 0 ==> s@ =~= Seq::<char>::empty());
            !is_empty
        },
        _ => false,
    }
}

/// The first operand of a routine must fit its first parameter.
pub open spec fn receiver_mismatch(
    name: Seq<char>,
    got: IrType,
    params: Seq<IrType>,
    range: TokenRange,
) -> Option<ErrorView> {
    if got.slot_spec() == params[0].slot_spec() {
        None
    } else {
        Some(
            ErrorView::StdlibArgTypeMismatch {
                name,
                arg_idx: 0,
                got,
                expected: params[0],
                range,
            },
        )
    }
}

/// Checks the receiver of a routine.
pub fn check_stdlib_arg(name: &String, got: IrType, params: &Vec<IrType>, range: TokenRange) -> (r:
    Result<(), LoweringError>)
    requires
        params@.len() > 0,
    ensures
        match r {
            Ok(_) => receiver_mismatch(name@, got, params@, range) is None,
            Err(e) => receiver_mismatch(name@, got, params@, range) == Some(e@),
        },
{
    if got.wasm_slot() == params[0].wasm_slot() {
        Ok(())
    } else {
        Err(
            LoweringError::StdlibArgTypeMismatch {
                name: name.clone(),
                arg_idx: 0,
                got,
                expected: params[0],
                range,
            },
        )
    }
}

/// The routine behind a method, called on the receiver `f` of type `ty`.
pub open spec fn routine_method<L: CallLowering>(
    low: L,
    table: StdlibTable,
    f: FragmentView,
    ty: IrType,
    name: Seq<char>,
    args: Seq<CallArg>,
    range: TokenRange,
    scope: Scope<'_>,
) -> Result<FragmentView, ErrorView> {
    let arity = 1 + args.len();
    match low.method_index(ty, name) {
        None => Err(unknown_method(name, arity as int, range)),
        Some(i) => if i >= table.entries@.len() || table.entries@[i as int].params@.len()
            != arity {
            Err(unknown_method(name, arity as int, range))
        } else if name == "split"@ && ty == IrType::String && !sound_separator(args) {
            Err(
                ErrorView::UnsupportedExpr {
                    kind: "String.split with a separator that is not a non-empty string literal — the tree-walk oracle errors on an empty separator, so only a provably non-empty literal separator lowers byte-equal four-way"@,
                    range,
                },
            )
        } else {
            let entry = table.entries@[i as int];
            match receiver_mismatch(name, ty, entry.params@, range) {
                Some(e) => Err(e),
                None => routine_called(
                    table,
                    i as int,
                    arity as int,
                    routine_args(
                        low,
                        name,
                        entry.name@,
                        entry.params@,
                        1,
                        args,
                        range,
                        scope,
                        f.ops,
                        f.slots,
                        0,
                    ),
                    range,
                ),
            }
        },
    }
}

fn lower_routine_method<L: CallLowering>(
    f: Fragment,
    ty: IrType,
    name: &String,
    args: &Vec<CallArg>,
    range: TokenRange,
    scope: &Scope<'_>,
    low: &L,
    table: &StdlibTable,
) -> (r: Result<Fragment, LoweringError>)
    requires
        table.wf(),
        args@.len() < u32::MAX,
    ensures
        outcome(r) == routine_method(*low, *table, f@, ty, name@, args@, range, *scope),
{
    let arity: usize = 1 + args.len();
    let i: u32 = match low.stdlib_method_index(ty, name) {
        None => {
            return Err(method_error(name, arity, range));
        },
        Some(i) => i,
    };
    if i as usize >= table.entries.len() {
        return Err(method_error(name, arity, range));
    }
    let entry = &table.entries[i as usize];
    if entry.params.len() != arity {
        return Err(method_error(name, arity, range));
    }
    if same_text(name.as_str(), "split") && ty == IrType::String && !has_sound_separator(args) {
        return Err(
            unsupported(
                "String.split with a separator that is not a non-empty string literal — the tree-walk oracle errors on an empty separator, so only a provably non-empty literal separator lowers byte-equal four-way",
                range,
            ),
        );
    }
    match check_stdlib_arg(name, ty, &entry.params, range) {
        Err(e) => {
            return Err(e);
        },
        Ok(_) => {},
    }
    let Fragment { ops, slots, .. } = f;
    let operands = lower_routine_args(
        name,
        &entry.name,
        &entry.params,
        1,
        args,
        range,
        scope,
        ops,
        &slots,
        low,
    );
    call_routine(table, i, arity as u32, operands, range)
}

/// A method call: a declared method of the record brand, `map` or `filter` on
/// a list, or the routine behind a method of a builtin type.
pub open spec fn method_call<L: CallLowering>(
    low: L,
    table: StdlibTable,
    segments: Seq<TokenKey>,
    name: Seq<char>,
    args: Seq<CallArg>,
    range: TokenRange,
    scope: Scope<'_>,
    at: SlotsView,
) -> Result<FragmentView, ErrorView> {
    match low.receiver(segments, range, scope, at) {
        Err(e) => Err(e),
        Ok((f, brand)) => match f.ty {
            None => Err(
                ErrorView::UnsupportedExpr {
                    kind: "FnCall(receiver-stack-empty for `"@ + name + "`)"@,
                    range,
                },
            ),
            Some(ty) => match branded_call(low, brand, name, args, range, scope, f.slots) {
                Some(rest) => appended(f.ops, rest),
                None => match method_hof(low, table, ty, name, args, range, scope, f.slots) {
                    Err(e) => Err(e),
                    Ok(Some(rest)) => Ok(
                        FragmentView { ops: f.ops + rest.ops, ty: rest.ty, slots: rest.slots },
                    ),
                    Ok(None) => routine_method(low, table, f, ty, name, args, range, scope),
                },
            },
        },
    }
}

/// The rest of a call of a declared method, where the receiver has a brand.
pub open spec fn branded_call<L: CallLowering>(
    low: L,
    brand: Option<Seq<char>>,
    name: Seq<char>,
    args: Seq<CallArg>,
    range: TokenRange,
    scope: Scope<'_>,
    at: SlotsView,
) -> Option<Result<FragmentView, ErrorView>> {
    match brand {
        Some(b) => low.schema_call(b, name, args, range, scope, at),
        None => None,
    }
}

fn join_fragments(ops: Vec<TaggedOp>, rest: Result<Fragment, LoweringError>) -> (r: Result<
    Fragment,
    LoweringError,
>)
    ensures
        outcome(r) == appended(ops_view(ops@), outcome(rest)),
{
    match rest {
        Err(e) => Err(e),
        Ok(f) => {
            let Fragment { ops: more, ty, slots } = f;
            let mut out: Vec<TaggedOp> = ops;
            emit_all(&mut out, more);
            Ok(Fragment { ops: out, ty, slots })
        },
    }
}

fn lower_method_call<L: CallLowering>(
    segments: &[TokenKey],
    name: &String,
    args: &Vec<CallArg>,
    range: TokenRange,
    scope: &Scope<'_>,
    at: &Slots,
    low: &L,
    table: &StdlibTable,
) -> (r: Result<Fragment, LoweringError>)
    requires
        table.wf(),
        args@.len() < u32::MAX,
    ensures
        outcome(r) == method_call(
            *low,
            *table,
            segments@,
            name@,
            args@,
            range,
            *scope,
            at@,
        ),
{
    let (f, brand) = match low.lower_method_receiver(segments, range, scope, at) {
        Err(e) => {
            return Err(e);
        },
        Ok(v) => v,
    };
    let ty: IrType = match f.ty {
        None => {
            return Err(
                LoweringError::UnsupportedExpr {
                    kind: join3("FnCall(receiver-stack-empty for `", name.as_str(), "`)"),
                    range,
                },
            );
        },
        Some(t) => t,
    };
    match &brand {
        Some(b) => match low.finish_schema_method_call(b, name, args, range, scope, &f.slots) {
            Some(rest) => {
                return join_fragments(f.ops, rest);
            },
            None => {},
        },
        None => {},
    }
    match try_method_hof(ty, name, args, range, scope, &f.slots, low, table) {
        Err(e) => Err(e),
        Ok(Some(rest)) => join_fragments(f.ops, Ok(rest)),
        Ok(None) => lower_routine_method(f, ty, name, args, range, scope, low, table),
    }
}

// ---------------------------------------------------------------------------
// Dispatch.
// ---------------------------------------------------------------------------

/// The first attempt at or behind `from` that applied or failed.
pub open spec fn first_applied(
    attempts: Seq<Result<Option<FragmentView>, ErrorView>>,
    from: int,
) -> Result<Option<FragmentView>, ErrorView>
    decreases attempts.len() - from,
{
    if from < 0 || from >= attempts.len() {
        Ok(None)
    } else if attempts[from] == Ok::<Option<FragmentView>, ErrorView>(None) {
        first_applied(attempts, from + 1)
    } else {
        attempts[from]
    }
}

/// The forms that are tried on a call, in order.
pub open spec fn fused_forms<L: CallLowering>(
    low: L,
    table: StdlibTable,
    path: Seq<TokenKey>,
    args: Seq<CallArg>,
    range: TokenRange,
    scope: Scope<'_>,
    at: SlotsView,
) -> Seq<Result<Option<FragmentView>, ErrorView>> {
    seq![
        local_closure_call(low, path, args, range, scope, at),
        len_filter_range(low, path, args, range, scope, at),
        list_len(low, path, args, range, scope, at),
        low.special(SpecialCall::Count, path, args, range, scope, at),
        list_filter(low, table, path, args, range, scope, at),
        low.special(SpecialCall::Quantifier, path, args, range, scope, at),
        low.special(SpecialCall::Unique, path, args, range, scope, at),
        list_map(low, table, path, args, range, scope, at),
        list_sum_range(low, path, args, range, scope, at),
        list_sum_value(low, table, path, args, range, scope, at),
        range_chain_len(low, path, args, range, scope, at),
        nested_range_map_reduce(low, path, args, range, scope, at),
        range_chain_reduce(low, path, args, range, scope, at),
        materialized_list_reduce(low, path, args, range, scope, at),
        list_reduce(low, table, path, args, range, scope, at),
        range_value(low, path, args, range, scope, at),
    ]
}

#[verifier::rlimit(40)]
fn try_fused_forms<L: CallLowering>(
    path: &Vec<TokenKey>,
    args: &Vec<CallArg>,
    range: TokenRange,
    scope: &Scope<'_>,
    at: &Slots,
    low: &L,
    table: &StdlibTable,
) -> (r: Result<Option<Fragment>, LoweringError>)
    requires
        table.wf(),
    ensures
        maybe_outcome(r) == first_applied(
            fused_forms(*low, *table, path@, args@, range, *scope, at@),
            0,
        ),
{
    let ghost forms = fused_forms(*low, *table, path@, args@, range, *scope, at@);
    let mut k: usize = 0;
    while k < 16
        invariant
            k <= 16,
            table.wf(),
            forms == fused_forms(*low, *table, path@, args@, range, *scope, at@),
            first_applied(forms, 0) == first_applied(forms, k as int),
        decreases 16 - k,
    {
        let tried = match k {
            0 => try_lower_local_closure_call(path, args, range, scope, at, low),
            1 => try_lower_len_filter_range(path, args, range, scope, at, low),
            2 => try_lower_list_len(path, args, range, scope, at, low),
            3 => low.try_special(SpecialCall::Count, path, args, range, scope, at),
            4 => try_lower_list_filter(path, args, range, scope, at, low, table),
            5 => low.try_special(SpecialCall::Quantifier, path, args, range, scope, at),
            6 => low.try_special(SpecialCall::Unique, path, args, range, scope, at),
            7 => try_lower_list_map(path, args, range, scope, at, low, table),
            8 => try_lower_list_sum_range(path, args, range, scope, at, low),
            9 => try_lower_list_sum_value(path, args, range, scope, at, low, table),
            10 => try_lower_range_chain_len(path, args, range, scope, at, low),
            11 => try_lower_nested_range_map_reduce(path, args, range, scope, at, low),
            12 => try_lower_range_chain_reduce(path, args, range, scope, at, low),
            13 => try_lower_materialized_list_reduce(path, args, range, scope, at, low),
            14 => try_lower_list_reduce(path, args, range, scope, at, low, table),
            _ => try_lower_range_value(path, args, range, scope, at, low),
        };
        assert(maybe_outcome(tried) == forms[k as int]);
        match tried {
            Err(e) => {
                return Err(e);
            },
            Ok(Some(f)) => {
                return Ok(Some(f));
            },
            Ok(None) => {},
        }
        k += 1;
    }
    Ok(None)
}

/// The forms of arithmetic that are tried before the bundled routines.
pub open spec fn math_forms<L: CallLowering>(
    low: L,
    path: Seq<TokenKey>,
    args: Seq<CallArg>,
    range: TokenRange,
    scope: Scope<'_>,
    at: SlotsView,
) -> Seq<Result<Option<FragmentView>, ErrorView>> {
    seq![
        low.special(SpecialCall::ScalarMath, path, args, range, scope, at),
        low.special(SpecialCall::PredicateMath, path, args, range, scope, at),
        low.special(SpecialCall::SizeInRange, path, args, range, scope, at),
    ]
}

fn try_math_forms<L: CallLowering>(
    path: &Vec<TokenKey>,
    args: &Vec<CallArg>,
    range: TokenRange,
    scope: &Scope<'_>,
    at: &Slots,
    low: &L,
) -> (r: Result<Option<Fragment>, LoweringError>)
    ensures
        maybe_outcome(r) == first_applied(
            math_forms(*low, path@, args@, range, *scope, at@),
            0,
        ),
{
    let ghost forms = math_forms(*low, path@, args@, range, *scope, at@);
    let mut k: usize = 0;
    while k < 3
        invariant
            k <= 3,
            forms == math_forms(*low, path@, args@, range, *scope, at@),
            first_applied(forms, 0) == first_applied(forms, k as int),
        decreases 3 - k,
    {
        let which: SpecialCall = match k {
            0 => SpecialCall::ScalarMath,
            1 => SpecialCall::PredicateMath,
            _ => SpecialCall::SizeInRange,
        };
        let tried = low.try_special(which, path, args, range, scope, at);
        assert(maybe_outcome(tried) == forms[k as int]);
        match tried {
            Err(e) => {
                return Err(e);
            },
            Ok(Some(f)) => {
                return Ok(Some(f));
            },
            Ok(None) => {},
        }
        k += 1;
    }
    Ok(None)
}

/// A call behind the fused forms: by a bare name, or of a method.
pub open spec fn plain_call<L: CallLowering>(
    low: L,
    table: StdlibTable,
    resolved: NameTable<HostFnEntry>,
    path: Seq<TokenKey>,
    args: Seq<CallArg>,
    range: TokenRange,
    scope: Scope<'_>,
    at: SlotsView,
) -> Result<FragmentView, ErrorView> {
    match path.last() {
        TokenKey::String(name, _, _) => match first_applied(
            math_forms(low, path, args, range, scope, at),
            0,
        ) {
            Err(e) => Err(e),
            Ok(Some(f)) => Ok(f),
            Ok(None) => if path.len() == 1 {
                free_call(low, table, resolved, name@, args, range, scope, at)
            } else {
                method_call(low, table, path.drop_last(), name@, args, range, scope, at)
            },
        },
        _ => Err(
            ErrorView::UnsupportedExpr { kind: "FnCall(non-string-tail-segment)"@, range },
        ),
    }
}

/// The lowering of a call.
pub open spec fn fn_call<L: CallLowering>(
    low: L,
    table: StdlibTable,
    resolved: NameTable<HostFnEntry>,
    path: Seq<TokenKey>,
    args: Seq<CallArg>,
    range: TokenRange,
    scope: Scope<'_>,
    at: SlotsView,
) -> Result<FragmentView, ErrorView> {
    if path.len() == 0 {
        Err(ErrorView::UnsupportedExpr { kind: "FnCall(empty-path)"@, range })
    } else {
        match first_applied(fused_forms(low, table, path, args, range, scope, at), 0) {
            Err(e) => Err(e),
            Ok(Some(f)) => Ok(f),
            Ok(None) => match type_const(low, path, args, range, scope, at) {
                Err(e) => Err(e),
                Ok(Some(f)) => Ok(f),
                Ok(None) => plain_call(low, table, resolved, path, args, range, scope, at),
            },
        }
    }
}

/// Lowers a call; `resolved` are the host functions.
pub fn lower_fn_call<L: CallLowering>(
    path: &Vec<TokenKey>,
    args: &Vec<CallArg>,
    range: TokenRange,
    scope: &Scope<'_>,
    at: &Slots,
    low: &L,
    table: &StdlibTable,
    resolved: &NameTable<HostFnEntry>,
) -> (r: Result<Fragment, LoweringError>)
    requires
        table.wf(),
        args@.len() < u32::MAX,
    ensures
        outcome(r) == fn_call(*low, *table, *resolved, path@, args@, range, *scope, at@),
{
    if path.len() == 0 {
        return Err(unsupported("FnCall(empty-path)", range));
    }
    match try_fused_forms(path, args, range, scope, at, low, table) {
        Err(e) => {
            return Err(e);
        },
        Ok(Some(f)) => {
            return Ok(f);
        },
        Ok(None) => {},
    }
    match try_lower_type_const(path, args, range, scope, at, low) {
        Err(e) => {
            return Err(e);
        },
        Ok(Some(f)) => {
            return Ok(f);
        },
        Ok(None) => {},
    }
    let name: &String = match &path[path.len() - 1] {
        TokenKey::String(n, _, _) => n,
        _ => {
            return Err(unsupported("FnCall(non-string-tail-segment)", range));
        },
    };
    match try_math_forms(path, args, range, scope, at, low) {
        Err(e) => {
            return Err(e);
        },
        Ok(Some(f)) => {
            return Ok(f);
        },
        Ok(None) => {},
    }
    if path.len() == 1 {
        return lower_free_call(name, args, range, scope, at, low, table, resolved);
    }
    let segments: &[TokenKey] = slice_subrange(path.as_slice(), 0, path.len() - 1);
    assert(segments@ =~= path@.drop_last());
    lower_method_call(segments, name, args, range, scope, at, low, table)
}

impl CallLowering for LeafLowering {
    open spec fn special(
        &self,
        which: SpecialCall,
        path: Seq<TokenKey>,
        args: Seq<CallArg>,
        range: TokenRange,
        scope: Scope<'_>,
        at: SlotsView,
    ) -> Result<Option<FragmentView>, ErrorView> {
        Ok(None)
    }

    fn try_special(
        &self,
        which: SpecialCall,
        path: &Vec<TokenKey>,
        args: &Vec<CallArg>,
        range: TokenRange,
        scope: &Scope<'_>,
        at: &Slots,
    ) -> (r: Result<Option<Fragment>, LoweringError>) {
        Ok(None)
    }

    open spec fn stdlib_arg(
        &self,
        routine: Seq<char>,
        index: int,
        value: Node,
        lowered: Result<FragmentView, ErrorView>,
        params: Seq<IrType>,
        range: TokenRange,
        scope: Scope<'_>,
        at: SlotsView,
    ) -> Result<FragmentView, ErrorView> {
        match valued(lowered, "argument without a value"@, value.range) {
            Err(e) => Err(e),
            Ok(f) => if 0 <= index < params.len() && f.ty->0 != params[index] {
                Err(
                    ErrorView::StdlibArgTypeMismatch {
                        name: routine,
                        arg_idx: index as usize,
                        got: f.ty->0,
                        expected: params[index],
                        range,
                    },
                )
            } else {
                Ok(f)
            },
        }
    }

    fn lower_stdlib_arg(
        &self,
        routine: &String,
        index: usize,
        value: &Node,
        lowered: Result<Fragment, LoweringError>,
        params: &Vec<IrType>,
        range: TokenRange,
        scope: &Scope<'_>,
        at: &Slots,
    ) -> (r: Result<Fragment, LoweringError>) {
        let f: Fragment = match lowered {
            Err(e) => {
                return Err(e);
            },
            Ok(f) => f,
        };
        match f.ty {
            None => Err(unsupported("argument without a value", value.range)),
            Some(ty) => if index < params.len() && ty != params[index] {
                Err(
                    LoweringError::StdlibArgTypeMismatch {
                        name: routine.clone(),
                        arg_idx: index,
                        got: ty,
                        expected: params[index],
                        range,
                    },
                )
            } else {
                Ok(f)
            },
        }
    }

    open spec fn receiver(
        &self,
        segments: Seq<TokenKey>,
        range: TokenRange,
        scope: Scope<'_>,
        at: SlotsView,
    ) -> Result<(FragmentView, Option<Seq<char>>), ErrorView> {
        match plain_name(segments) {
            None => Err(ErrorView::UnsupportedExpr { kind: "leaf receiver"@, range }),
            Some(name) => match scope.find(name) {
                None => Err(ErrorView::UnresolvedVariable { name, range }),
                Some(b) => Ok(
                    (
                        FragmentView {
                            ops: seq![let_get(b.idx, b.ty, range)],
                            ty: Some(b.ty),
                            slots: at,
                        },
                        match b.schema_brand {
                            Some(n) => Some(n@),
                            None => None,
                        },
                    ),
                ),
            },
        }
    }

    fn lower_method_receiver(
        &self,
        segments: &[TokenKey],
        range: TokenRange,
        scope: &Scope<'_>,
        at: &Slots,
    ) -> (r: Result<(Fragment, Option<String>), LoweringError>) {
        if segments.len() != 1 {
            return Err(unsupported("leaf receiver", range));
        }
        match &segments[0] {
            TokenKey::String(name, _, _) => match scope.lookup(name) {
                None => Err(LoweringError::UnresolvedVariable { name: name.clone(), range }),
                Some(b) => {
                    let mut ops: Vec<TaggedOp> = Vec::new();
                    emit_get(&mut ops, b.idx, b.ty, range);
                    assert(ops_view(ops@) =~= seq![let_get(b.idx, b.ty, range)]);
                    let brand: Option<String> = match &b.schema_brand {
                        Some(n) => Some(n.clone()),
                        None => None,
                    };
                    Ok((Fragment { ops, ty: Some(b.ty), slots: at.copy() }, brand))
                },
            },
            _ => Err(unsupported("leaf receiver", range)),
        }
    }

    open spec fn method_index(&self, receiver: IrType, name: Seq<char>) -> Option<u32> {
        None
    }

    fn stdlib_method_index(&self, receiver: IrType, name: &String) -> (r: Option<u32>) {
        None
    }

    open spec fn schema_call(
        &self,
        brand: Seq<char>,
        method: Seq<char>,
        args: Seq<CallArg>,
        range: TokenRange,
        scope: Scope<'_>,
        at: SlotsView,
    ) -> Option<Result<FragmentView, ErrorView>> {
        None
    }

    fn finish_schema_method_call(
        &self,
        brand: &String,
        method: &String,
        args: &Vec<CallArg>,
        range: TokenRange,
        scope: &Scope<'_>,
        at: &Slots,
    ) -> (r: Option<Result<Fragment, LoweringError>>) {
        None
    }

    open spec fn rendered(&self, ty: IrType, range: TokenRange, at: SlotsView) -> Result<
        FragmentView,
        ErrorView,
    > {
        Err(ErrorView::UnsupportedExpr { kind: "leaf expression"@, range })
    }

    fn lower_value_to_string(&self, ty: IrType, range: TokenRange, at: &Slots) -> (r: Result<
        Fragment,
        LoweringError,
    >) {
        Err(unsupported("leaf expression", range))
    }
}

} // verus!

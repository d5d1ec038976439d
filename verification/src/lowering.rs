//! The entry function of a module, and the lowering of a workspace.

use std::rc::Rc;

use vstd::prelude::*;

use crate::ast::{expr_kind, expr_kind_name, key_is, ClosureParam, Expr, Node, TokenRange, TypeNode};
use crate::canonical::{MainSignature, SchemaTable};
use crate::dict_body::{fields_from, lower_anon_dict_body};
use crate::dict_plan::{AnnotatedClosures, ClosurePlanner};
use crate::entry::{entry_planned, plan_entry, EntryPlan, ReturnShape};
use crate::error::{ErrorView, LoweringError};
use crate::expr::{ExprEnv, ExprLowering};
use crate::fragment::{
    outcome, ClosureSig, Fragment, FragmentView, LeafLowering, Scope, SigView, Slots, SlotsView,
};
use crate::ir::{emit_all, emit_simple, ops_view, sop, IrType, SimpleOp, TaggedOp};
use crate::module::{
    assemble_module, assembled, filled, first_unfilled, funcs_view, unfilled_error, Func, FuncView,
    LambdaTable, LoweredEntry, Module,
};
use crate::names::{name_index, NameTable};
use crate::native_import::{
    entries_view, imports_view, resolve_all, HostFnEntry, HostFnTables, ImportTable, NativeImport,
    NativeImportBuilder,
};
use crate::records::{
    layout_outcome, lower_value_as_type, typed_value, FieldSlot, LayoutView, OffsetTable,
    RecordBody, RecordEnv, RecordLowering,
};
use crate::reference::{Frame, MethodParam};
use crate::shape::{
    const_string_list, ir_type_of, list_hof_path, list_schema_subrecord_in_s4_scope,
    param_field_walk, pointer_array, pointer_array_list_ir_type,
    pointer_array_list_source_is_const_pool, pointer_array_param_field_walk,
    pointer_array_param_identity_walk, record_list_ok, string_result_list_hof_call,
    string_split_call, type_repr_to_ir_type, unsupported_type, LocalBinding,
};
use crate::stdlib::StdlibTable;
use crate::text::{decimal, decimal_chars, join2, join3};
use crate::types::{describe_type, type_text, type_view, Field, Schema, TypeRepr};
use crate::variant::{is_variant_list, variant_record_list_inplace_expr_for_type};
use crate::workspace::{
    all_declarations, contradiction_error, declarations, declared_view,
    detect_cross_file_schema_conflicts, detect_other_main, distinct_tops, first_contradiction,
    known_types, law_one_module_stands_alone, load_modules, loaded, modules_view, other_main,
    reachable, reachable_modules, sightings, AnalyzedTree, LoadedModule, SchemaDef, SchemaResolver,
    WorkspaceTree,
};

verus! {

// ---------------------------------------------------------------------------
// Parameters.
// ---------------------------------------------------------------------------

/// A parameter with its slot: a record parameter is a pointer that bears the
/// name of its type.
pub open spec fn local_binding<'a>(field: &'a Field, slot: FieldSlot) -> Result<
    LocalBinding<'a>,
    ErrorView,
> {
    match field.ty {
        TypeRepr::Schema { schema } => Ok(
            LocalBinding {
                name: field.name,
                ty: IrType::I32,
                offset: slot.offset,
                schema_brand: Some(schema.name),
                type_repr: &field.ty,
            },
        ),
        _ => match ir_type_of(field.ty) {
            Some(ty) => Ok(
                LocalBinding {
                    name: field.name,
                    ty,
                    offset: slot.offset,
                    schema_brand: None,
                    type_repr: &field.ty,
                },
            ),
            None => Err(unsupported_type(field.ty)),
        },
    }
}

/// The parameters from `from` on, behind those already bound.
pub open spec fn local_index<'a>(
    fields: Seq<Field>,
    slots: Seq<FieldSlot>,
    done: Seq<LocalBinding<'a>>,
    from: int,
) -> Result<Seq<LocalBinding<'a>>, ErrorView>
    decreases fields.len() - from,
{
    if from < 0 || from >= fields.len() {
        Ok(done)
    } else {
        match local_binding(&fields[from], slots[from]) {
            Ok(b) => local_index(fields, slots, done.push(b), from + 1),
            Err(e) => Err(e),
        }
    }
}

/// Binds the entry parameters to their slots in the parameter record.
pub fn build_local_index<'a>(main_schema: &'a Schema, layout: &OffsetTable) -> (r: Result<
    Vec<LocalBinding<'a>>,
    LoweringError,
>)
    requires
        main_schema.fields@.len() == layout.fields@.len(),
    ensures
        match r {
            Ok(v) => local_index(main_schema.fields@, layout.fields@, Seq::empty(), 0) == Ok::<
                Seq<LocalBinding<'a>>,
                ErrorView,
            >(v@),
            Err(e) => local_index(main_schema.fields@, layout.fields@, Seq::empty(), 0) == Err::<
                Seq<LocalBinding<'a>>,
                ErrorView,
            >(e@),
        },
{
    let mut out: Vec<LocalBinding<'a>> = Vec::new();
    let mut i: usize = 0;
    let ghost whole = local_index(main_schema.fields@, layout.fields@, out@, 0);
    assert(out@ =~= Seq::empty());
    while i < main_schema.fields.len()
        invariant
            i <= main_schema.fields@.len(),
            main_schema.fields@.len() == layout.fields@.len(),
            whole == local_index(main_schema.fields@, layout.fields@, Seq::empty(), 0),
            whole == local_index(main_schema.fields@, layout.fields@, out@, i as int),
        decreases main_schema.fields@.len() - i,
    {
        let field: &'a Field = &main_schema.fields[i];
        let offset: u32 = layout.fields[i].offset;
        let (ty, schema_brand): (IrType, Option<String>) = match &field.ty {
            TypeRepr::Schema { schema } => (IrType::I32, Some(schema.name.clone())),
            _ => match type_repr_to_ir_type(&field.ty) {
                Ok(ty) => (ty, None),
                Err(e) => {
                    return Err(e);
                },
            },
        };
        out.push(
            LocalBinding {
                name: field.name.clone(),
                ty,
                offset,
                schema_brand,
                type_repr: &field.ty,
            },
        );
        i += 1;
    }
    Ok(out)
}

/// Every parameter is bound, in order and at its slot.
pub proof fn law_parameters_are_bound_in_order<'a>(
    fields: Seq<Field>,
    slots: Seq<FieldSlot>,
    done: Seq<LocalBinding<'a>>,
    from: int,
    k: int,
)
    requires
        0 <= from <= fields.len(),
        done.len() == from,
        local_index(fields, slots, done, from) is Ok,
        from <= k < fields.len(),
    ensures
        local_index(fields, slots, done, from)->Ok_0.len() == fields.len(),
        local_index(fields, slots, done, from)->Ok_0[k].name == fields[k].name,
        local_index(fields, slots, done, from)->Ok_0[k].offset == slots[k].offset,
        *local_index(fields, slots, done, from)->Ok_0[k].type_repr == fields[k].ty,
        forall|j: int|
            0 <= j < from ==> #[trigger] local_index(fields, slots, done, from)->Ok_0[j]
                == done[j],
    decreases fields.len() - from,
{
    let b = local_binding(&fields[from], slots[from])->Ok_0;
    let more = done.push(b);
    if from + 1 < fields.len() {
        let next = if k == from {
            from + 1
        } else {
            k
        };
        law_parameters_are_bound_in_order(fields, slots, more, from + 1, next);
        let all = local_index(fields, slots, more, from + 1)->Ok_0;
        assert(all[from] == more[from]);
        assert forall|j: int| 0 <= j < from implies #[trigger] all[j] == done[j] by {
            assert(all[j] == more[j]);
        }
    } else {
        assert(local_index(fields, slots, more, from + 1) == Ok::<
            Seq<LocalBinding<'a>>,
            ErrorView,
        >(more));
    }
}

// ---------------------------------------------------------------------------
// The body.
// ---------------------------------------------------------------------------

/// The body builds a list in one region of memory, which is returned where it
/// lies.
pub open spec fn returned_in_place(main: Schema, ret: IrType, ty: TypeRepr, expr: Expr) -> bool {
    let walks = (expr matches Expr::Variable(path) && path@.len() == 1) || param_field_walk(
        expr,
        main,
    ) is Some;
    let calls = expr matches Expr::FnCall { path, .. } && list_hof_path(path@);
    let splits = expr matches Expr::FnCall { path, .. } && path@.len() > 0 && key_is(
        path@.last(),
        "split"@,
    );
    match ret {
        IrType::ListList => walks || (is_variant_list(ty) && (expr is List || expr is Comprehension
            || calls)),
        IrType::ListString => walks || expr is Comprehension || calls || splits,
        IrType::ListSchema => walks && record_list_ok(ty),
        _ => false,
    }
}

fn is_returned_in_place(main_schema: &Schema, ret: IrType, ty: &TypeRepr, expr: &Expr) -> (r: bool)
    ensures
        r == returned_in_place(*main_schema, ret, *ty, *expr),
{
    let walks: bool = pointer_array_param_identity_walk(expr) || pointer_array_param_field_walk(
        expr,
        main_schema,
    ).is_some();
    let param_walk: bool = walks && match ret {
        IrType::ListList | IrType::ListString => true,
        IrType::ListSchema => list_schema_subrecord_in_s4_scope(ty),
        _ => false,
    };
    let string_hof: bool = ret == IrType::ListString && string_result_list_hof_call(expr);
    let split: bool = ret == IrType::ListString && string_split_call(expr);
    let variants: bool = ret == IrType::ListList && variant_record_list_inplace_expr_for_type(
        ty,
        expr,
    );
    param_walk || string_hof || split || variants
}

/// The error for a list of pointers that cannot be returned.
pub open spec fn list_source_error(ty: TypeRepr, expr: Expr, range: TokenRange) -> ErrorView {
    ErrorView::UnsupportedTypeInMain {
        ty: type_text(type_view(ty)) + " return sourced from `"@ + expr_kind(expr)
            + "` — pointer-array list returns are only marshalled from in-source list literals, not parameters / loads / calls"@,
        range,
    }
}

/// A value and its store in the returned record.
pub open spec fn value_return<L: RecordLowering>(
    env: RecordEnv<'_, L>,
    plan: EntryPlan,
    layout: OffsetTable,
    range: TokenRange,
    scope: Scope<'_>,
    at: SlotsView,
) -> Result<FragmentView, ErrorView> {
    let ty = plan.return_schema.fields@[0].ty;
    let expr = *plan.root.expr;
    match ir_type_of(ty) {
        None => Err(unsupported_type(ty)),
        Some(ret) => {
            let inplace = returned_in_place(plan.main_schema, ret, ty, expr);
            if pointer_array(ret) && !const_string_list(expr) && !inplace {
                Err(list_source_error(ty, expr, range))
            } else {
                match typed_value(env, ty, plan.root, scope, at) {
                    Err(e) => Err(e),
                    Ok(f) => Ok(
                        FragmentView {
                            ops: f.ops.push(
                                sop(
                                    SimpleOp::StoreField {
                                        offset: if layout.fields@.len() > 0 {
                                            layout.fields@[0].offset
                                        } else {
                                            0
                                        },
                                        ty: ret,
                                        inplace,
                                    },
                                    range,
                                ),
                            ),
                            ty: None,
                            slots: f.slots,
                        },
                    ),
                }
            }
        },
    }
}

fn lower_value_return<L: RecordLowering>(
    env: &RecordEnv<'_, L>,
    plan: &EntryPlan,
    layout: &OffsetTable,
    range: TokenRange,
    scope: &Scope<'_>,
    at: &Slots,
) -> (r: Result<Fragment, LoweringError>)
    requires
        env.table.wf(),
        plan.return_schema.fields@.len() == 1,
    ensures
        outcome(r) == value_return(*env, *plan, *layout, range, *scope, at@),
{
    let ty: &TypeRepr = &plan.return_schema.fields[0].ty;
    let ret: IrType = match type_repr_to_ir_type(ty) {
        Err(e) => {
            return Err(e);
        },
        Ok(t) => t,
    };
    let inplace: bool = is_returned_in_place(&plan.main_schema, ret, ty, &*plan.root.expr);
    if pointer_array_list_ir_type(ret) && !pointer_array_list_source_is_const_pool(
        &*plan.root.expr,
    ) && !inplace {
        let head: String = join3(
            describe_type(ty).as_str(),
            " return sourced from `",
            expr_kind_name(&*plan.root.expr),
        );
        return Err(
            LoweringError::UnsupportedTypeInMain {
                ty: join2(
                    head.as_str(),
                    "` — pointer-array list returns are only marshalled from in-source list literals, not parameters / loads / calls",
                ),
                range,
            },
        );
    }
    match lower_value_as_type(env, ty, &plan.root, scope, at) {
        Err(e) => Err(e),
        Ok(f) => {
            let offset: u32 = if layout.fields.len() > 0 {
                layout.fields[0].offset
            } else {
                0
            };
            let Fragment { ops, slots, .. } = f;
            let mut out: Vec<TaggedOp> = ops;
            emit_simple(&mut out, SimpleOp::StoreField { offset, ty: ret, inplace }, range);
            Ok(Fragment { ops: out, ty: None, slots })
        },
    }
}

/// The returned record, allocated and filled.
pub open spec fn record_return(
    record: u32,
    stores: Result<FragmentView, ErrorView>,
    range: TokenRange,
) -> Result<FragmentView, ErrorView> {
    match stores {
        Err(e) => Err(e),
        Ok(f) => Ok(
            FragmentView {
                ops: seq![sop(SimpleOp::AllocRootRecord { record_local_idx: record }, range)]
                    + f.ops,
                ty: None,
                slots: f.slots,
            },
        ),
    }
}

fn fill_returned_record(
    record: u32,
    stores: Result<Fragment, LoweringError>,
    range: TokenRange,
) -> (r: Result<Fragment, LoweringError>)
    ensures
        outcome(r) == record_return(record, outcome(stores), range),
{
    match stores {
        Err(e) => Err(e),
        Ok(f) => {
            let Fragment { ops, slots, .. } = f;
            let mut out: Vec<TaggedOp> = Vec::new();
            emit_simple(&mut out, SimpleOp::AllocRootRecord { record_local_idx: record }, range);
            assert(ops_view(out@) =~= seq![
                sop(SimpleOp::AllocRootRecord { record_local_idx: record }, range),
            ]);
            emit_all(&mut out, ops);
            Ok(Fragment { ops: out, ty: None, slots })
        },
    }
}

/// The error for a body that is not of the form that the return type asks for.
pub open spec fn body_form_error(what: Seq<char>, root: Node) -> ErrorView {
    ErrorView::UnsupportedExpr {
        kind: what + ", got `"@ + expr_kind(*root.expr) + "`"@,
        range: root.range,
    }
}

fn reject_body_form(what: &str, root: &Node) -> (e: LoweringError)
    ensures
        e@ == body_form_error(what@, *root),
{
    let head: String = join3(what, ", got `", expr_kind_name(&*root.expr));
    LoweringError::UnsupportedExpr { kind: join2(head.as_str(), "`"), range: root.range }
}

/// The instructions that compute and store what is returned.
pub open spec fn returned_value<L: RecordLowering>(
    env: RecordEnv<'_, L>,
    plan: EntryPlan,
    layout: OffsetTable,
    range: TokenRange,
    scope: Scope<'_>,
    at: SlotsView,
) -> Result<FragmentView, ErrorView> {
    let root = plan.root;
    let next = at.after_record();
    match plan.shape {
        ReturnShape::Record => if *root.expr is Dict {
            record_return(
                at.records,
                env.low.record_body(
                    RecordBody::Declared,
                    plan.return_schema,
                    root,
                    at.records,
                    root.range,
                    scope,
                    next,
                ),
                root.range,
            )
        } else {
            Err(body_form_error("Body-of-branded-#main must be a dict literal"@, root))
        },
        ReturnShape::Tuple => match *root.expr {
            Expr::Tuple(elements) => if elements@.len() != plan.return_schema.fields@.len() {
                Err(
                    ErrorView::UnsupportedExpr {
                        kind: "tuple body has "@ + decimal_chars(elements@.len())
                            + " elements but `Tuple<...>` return declares "@ + decimal_chars(
                            plan.return_schema.fields@.len(),
                        ),
                        range: root.range,
                    },
                )
            } else {
                record_return(
                    at.records,
                    env.low.record_body(
                        RecordBody::Tuple,
                        plan.return_schema,
                        root,
                        at.records,
                        root.range,
                        scope,
                        next,
                    ),
                    root.range,
                )
            },
            _ => Err(
                body_form_error("Body-of-tuple-#main must be a tuple literal `(...)`"@, root),
            ),
        },
        ReturnShape::Fields(fields) => match *root.expr {
            Expr::Dict(pairs) => record_return(
                at.records,
                fields_from(env, fields, layout, pairs@, at.records, 0, scope, next),
                root.range,
            ),
            _ => Err(body_form_error("Body-of-anon-Dict-#main must be a dict literal"@, root)),
        },
        ReturnShape::Value => value_return(env, plan, layout, range, scope, at),
    }
}

/// The body of the entry function: what is returned, then the end.
pub open spec fn entry_body<L: RecordLowering>(
    env: RecordEnv<'_, L>,
    plan: EntryPlan,
    layout: OffsetTable,
    range: TokenRange,
    at: SlotsView,
) -> Result<FragmentView, ErrorView> {
    match returned_value(env, plan, layout, range, Scope::Empty, at) {
        Err(e) => Err(e),
        Ok(f) => Ok(
            FragmentView {
                ops: f.ops.push(sop(SimpleOp::Return, range)),
                ty: None,
                slots: f.slots,
            },
        ),
    }
}

fn lower_returned_value<L: RecordLowering>(
    env: &RecordEnv<'_, L>,
    plan: &EntryPlan,
    layout: &OffsetTable,
    range: TokenRange,
    scope: &Scope<'_>,
    at: &Slots,
) -> (r: Result<Fragment, LoweringError>)
    requires
        env.table.wf(),
        plan.wf(),
        layout.fields@.len() == plan.return_schema.fields@.len(),
    ensures
        outcome(r) == returned_value(*env, *plan, *layout, range, *scope, at@),
{
    let root: &Node = &plan.root;
    let (record, next) = at.alloc_record_local();
    match &plan.shape {
        ReturnShape::Record => match &*root.expr {
            Expr::Dict(_) => {
                let stores = env.low.lower_record_body(
                    RecordBody::Declared,
                    &plan.return_schema,
                    root,
                    record,
                    root.range,
                    scope,
                    &next,
                );
                fill_returned_record(record, stores, root.range)
            },
            _ => Err(reject_body_form("Body-of-branded-#main must be a dict literal", root)),
        },
        ReturnShape::Tuple => match &*root.expr {
            Expr::Tuple(elements) => {
                if elements.len() != plan.return_schema.fields.len() {
                    let head: String = join3(
                        "tuple body has ",
                        decimal(elements.len()).as_str(),
                        " elements but `Tuple<...>` return declares ",
                    );
                    return Err(
                        LoweringError::UnsupportedExpr {
                            kind: join2(
                                head.as_str(),
                                decimal(plan.return_schema.fields.len()).as_str(),
                            ),
                            range: root.range,
                        },
                    );
                }
                let stores = env.low.lower_record_body(
                    RecordBody::Tuple,
                    &plan.return_schema,
                    root,
                    record,
                    root.range,
                    scope,
                    &next,
                );
                fill_returned_record(record, stores, root.range)
            },
            _ => Err(
                reject_body_form("Body-of-tuple-#main must be a tuple literal `(...)`", root),
            ),
        },
        ReturnShape::Fields(fields) => match &*root.expr {
            Expr::Dict(pairs) => {
                let stores = lower_anon_dict_body(fields, layout, pairs, record, env, scope, &next);
                fill_returned_record(record, stores, root.range)
            },
            _ => Err(reject_body_form("Body-of-anon-Dict-#main must be a dict literal", root)),
        },
        ReturnShape::Value => lower_value_return(env, plan, layout, range, scope, at),
    }
}

/// Lowers the body of the entry function.
pub fn lower_entry_body<L: RecordLowering>(
    env: &RecordEnv<'_, L>,
    plan: &EntryPlan,
    layout: &OffsetTable,
    range: TokenRange,
    at: &Slots,
) -> (r: Result<Fragment, LoweringError>)
    requires
        env.table.wf(),
        plan.wf(),
        layout.fields@.len() == plan.return_schema.fields@.len(),
    ensures
        outcome(r) == entry_body(*env, *plan, *layout, range, at@),
{
    let scope: Scope<'_> = Scope::Empty;
    match lower_returned_value(env, plan, layout, range, &scope, at) {
        Err(e) => Err(e),
        Ok(f) => {
            let Fragment { ops, slots, .. } = f;
            let mut out: Vec<TaggedOp> = ops;
            emit_simple(&mut out, SimpleOp::Return, range);
            Ok(Fragment { ops: out, ty: None, slots })
        },
    }
}

/// The body of an entry function ends with a return.
pub proof fn law_entry_body_ends_with_return<L: RecordLowering>(
    env: RecordEnv<'_, L>,
    plan: EntryPlan,
    layout: OffsetTable,
    range: TokenRange,
    at: SlotsView,
)
    requires
        entry_body(env, plan, layout, range, at) is Ok,
    ensures
        entry_body(env, plan, layout, range, at)->Ok_0.ops.len() > 0,
        entry_body(env, plan, layout, range, at)->Ok_0.ops.last() == sop(SimpleOp::Return, range),
{
}

// ---------------------------------------------------------------------------
// The entry module.
// ---------------------------------------------------------------------------

/// The functions of the declared methods, and the state behind them.
#[derive(Debug, PartialEq, Eq)]
pub struct Methods {
    pub funcs: Vec<Func>,
    pub slots: Slots,
}

/// The mathematical value of lowered methods.
pub open spec fn methods_outcome(r: Result<Methods, LoweringError>) -> Result<
    (Seq<FuncView>, SlotsView),
    ErrorView,
> {
    match r {
        Ok(m) => Ok((funcs_view(m.funcs@), m.slots@)),
        Err(e) => Err(e@),
    }
}

/// How the parts of a module are lowered. Each method answers as a function of
/// its arguments.
pub trait EntryBackend: ClosurePlanner {
    /// Lowers what the entry body contains.
    type Low<'p>: ExprLowering;

    /// The lowering among the given names.
    spec fn lowering_in<'p>(&self, env: ExprEnv<'p>) -> Self::Low<'p>;

    /// Makes the lowering among the given names.
    fn lowering<'p>(&self, env: ExprEnv<'p>) -> (low: Self::Low<'p>)
        ensures
            low == self.lowering_in(env),
    ;

    /// The layout of a record type.
    spec fn layout_of(&self, schema: Schema) -> Result<LayoutView, ErrorView>;

    /// Computes the layout of a record type; it has one slot per field.
    fn lay_out(&self, schema: &Schema) -> (r: Result<OffsetTable, LoweringError>)
        ensures
            layout_outcome(r) == self.layout_of(*schema),
            r matches Ok(l) ==> l.fields@.len() == schema.fields@.len(),
    ;

    /// The declared methods, and the state behind them.
    spec fn methods(&self, types: SchemaTable<'_>, host_fns: NameTable<HostFnEntry>) -> Result<
        (Seq<FuncView>, SlotsView),
        ErrorView,
    >;

    /// Lowers the declared methods.
    fn lower_schema_methods(
        &self,
        types: &SchemaTable<'_>,
        host_fns: &NameTable<HostFnEntry>,
    ) -> (r: Result<Methods, LoweringError>)
        ensures
            methods_outcome(r) == self.methods(*types, *host_fns),
    ;
}

/// The state at the start of the entry body: what the methods have numbered
/// and interned stays; the slots of the function itself and its closures start
/// anew.
pub open spec fn first_slots(behind: SlotsView) -> SlotsView {
    SlotsView { lets: 0, records: 0, closures: Seq::empty(), ..behind }
}

/// The function around the entry body. Its operands are the addresses and
/// sizes of the parameter and return buffers, and the granted capabilities.
pub open spec fn entry_function(body: FragmentView, range: TokenRange) -> FuncView {
    FuncView {
        name: "run_main"@,
        params: seq![IrType::I32, IrType::I32, IrType::I32, IrType::I32, IrType::I64],
        ret: IrType::I32,
        body: body.ops,
        range,
    }
}

/// What the steps of lowering a planned entry give: the host functions, the
/// layouts, the parameters, and the methods.
pub ghost struct EntrySteps<'a> {
    pub natives: NativeImportBuilder,
    pub main_layout: Result<OffsetTable, LoweringError>,
    pub return_layout: Result<OffsetTable, LoweringError>,
    pub params: Result<Vec<LocalBinding<'a>>, LoweringError>,
    pub methods: Result<Methods, LoweringError>,
    /// The parameters of the method around the entry body, which is in none.
    pub no_method: Vec<MethodParam>,
}

/// The parameters of a plan by their slots.
pub open spec fn bound_params<'a>(plan: EntryPlan, layout: OffsetTable) -> Result<
    Seq<LocalBinding<'a>>,
    ErrorView,
> {
    local_index(plan.main_schema.fields@, layout.fields@, Seq::empty(), 0)
}

/// The mathematical value of bound parameters.
pub open spec fn bindings_outcome<'a>(r: Result<Vec<LocalBinding<'a>>, LoweringError>) -> Result<
    Seq<LocalBinding<'a>>,
    ErrorView,
> {
    match r {
        Ok(v) => Ok(v@),
        Err(e) => Err(e@),
    }
}

/// The body that the steps lead to.
pub open spec fn stepped_body<'a, B: EntryBackend>(
    backend: B,
    table: StdlibTable,
    builtins: Vec<String>,
    types: SchemaTable<'a>,
    plan: EntryPlan,
    range: TokenRange,
    steps: EntrySteps<'a>,
) -> Result<FragmentView, ErrorView> {
    match (steps.main_layout, steps.return_layout, steps.params, steps.methods) {
        (Err(e), _, _, _) => Err(e@),
        (_, Err(e), _, _) => Err(e@),
        (_, _, Err(e), _) => Err(e@),
        (_, _, _, Err(e)) => Err(e@),
        (Ok(_), Ok(return_layout), Ok(params), Ok(methods)) => entry_body(
            RecordEnv {
                low: &backend.lowering_in(
                    ExprEnv {
                        frame: Frame {
                            params: &params,
                            self_binding: None,
                            method_params: &steps.no_method,
                            types: &types,
                        },
                        builtins: &builtins,
                        table: &table,
                        host_fns: &steps.natives.resolved,
                    },
                ),
                table: &table,
                in_scratch: false,
            },
            plan,
            return_layout,
            range,
            first_slots(methods.slots@),
        ),
    }
}

/// The steps are those of the backend.
pub open spec fn steps_of<'a, B: EntryBackend>(
    backend: B,
    table: StdlibTable,
    builtins: Vec<String>,
    types: SchemaTable<'a>,
    host_fns: HostFnTables,
    plan: EntryPlan,
    range: TokenRange,
    steps: EntrySteps<'a>,
) -> bool {
    &&& entries_view(steps.natives.resolved.entries@) == resolve_all(
        host_fns.signatures.entries@,
        host_fns.gates,
    )
    &&& layout_outcome(steps.main_layout) == backend.layout_of(plan.main_schema)
    &&& layout_outcome(steps.return_layout) == backend.layout_of(plan.return_schema)
    &&& (steps.main_layout is Ok && steps.return_layout is Ok) ==> bindings_outcome(steps.params)
        == bound_params(plan, steps.main_layout->Ok_0)
    &&& methods_outcome(steps.methods) == backend.methods(types, steps.natives.resolved)
    &&& steps.no_method@.len() == 0
}

/// The module holds the methods, the entry function, the closures that the body
/// has numbered, and the imports.
pub open spec fn module_of(
    module: Module,
    methods: Methods,
    body: FragmentView,
    range: TokenRange,
) -> bool {
    exists|entry: Func, lambdas: Seq<Func>, imports: Seq<NativeImport>|
        entry@ == entry_function(body, range) && filled(body.slots.closures, funcs_view(lambdas))
            && imports_view(imports) == body.slots.imports && #[trigger] assembled(
            module,
            methods.funcs@,
            entry,
            lambdas,
            imports,
        )
}

/// What the steps lead to.
pub open spec fn steps_lead_to<'a, B: EntryBackend>(
    backend: B,
    table: StdlibTable,
    builtins: Vec<String>,
    types: SchemaTable<'a>,
    plan: EntryPlan,
    range: TokenRange,
    steps: EntrySteps<'a>,
    r: Result<LoweredEntry, LoweringError>,
) -> bool {
    match stepped_body(backend, table, builtins, types, plan, range, steps) {
        Err(e) => r matches Err(got) && got@ == e,
        Ok(body) => match first_unfilled(body.slots.closures, 0) {
            Some(i) => r matches Err(got) && got@ == unfilled_error(i, range),
            None => r matches Ok(entry) && entry.main_schema == plan.main_schema
                && entry.return_schema == plan.return_schema && module_of(
                entry.module,
                steps.methods->Ok_0,
                body,
                range,
            ),
        },
    }
}

/// The outcome of lowering a planned entry.
pub open spec fn plan_lowered<'a, B: EntryBackend>(
    backend: B,
    table: StdlibTable,
    builtins: Vec<String>,
    types: SchemaTable<'a>,
    host_fns: HostFnTables,
    plan: EntryPlan,
    range: TokenRange,
    r: Result<LoweredEntry, LoweringError>,
) -> bool {
    exists|steps: EntrySteps<'a>| #[trigger]
        steps_of(backend, table, builtins, types, host_fns, plan, range, steps) && steps_lead_to(
            backend,
            table,
            builtins,
            types,
            plan,
            range,
            steps,
            r,
        )
}

fn run_main(body: Fragment, range: TokenRange) -> (r: Func)
    ensures
        r@ == entry_function(body@, range),
{
    let mut params: Vec<IrType> = Vec::new();
    params.push(IrType::I32);
    params.push(IrType::I32);
    params.push(IrType::I32);
    params.push(IrType::I32);
    params.push(IrType::I64);
    assert(params@ =~= entry_function(body@, range).params);
    let Fragment { ops, .. } = body;
    Func { name: "run_main".to_owned(), params, ret: IrType::I32, body: ops, range }
}

/// Lowers a planned entry.
pub fn lower_planned_entry<B: EntryBackend>(
    plan: EntryPlan,
    types: &SchemaTable<'_>,
    host_fns: &HostFnTables,
    range: TokenRange,
    backend: &B,
    table: &StdlibTable,
    builtins: &Vec<String>,
) -> (r: Result<LoweredEntry, LoweringError>)
    requires
        table.wf(),
        plan.wf(),
    ensures
        plan_lowered(*backend, *table, *builtins, *types, *host_fns, plan, range, r),
{
    let natives = NativeImportBuilder::from_tree(host_fns);
    let no_method: Vec<MethodParam> = Vec::new();
    let main_layout = backend.lay_out(&plan.main_schema);
    let return_layout = backend.lay_out(&plan.return_schema);
    let methods = backend.lower_schema_methods(types, &natives.resolved);
    let ghost first = EntrySteps {
        natives,
        main_layout,
        return_layout,
        params: arbitrary(),
        methods,
        no_method,
    };
    let main: OffsetTable = match main_layout {
        Err(e) => {
            assert(steps_of(*backend, *table, *builtins, *types, *host_fns, plan, range, first));
            return Err(e);
        },
        Ok(l) => l,
    };
    let returned: OffsetTable = match return_layout {
        Err(e) => {
            assert(steps_of(*backend, *table, *builtins, *types, *host_fns, plan, range, first));
            return Err(e);
        },
        Ok(l) => l,
    };
    let ghost bound;
    let (body, methods) = {
        let params = build_local_index(&plan.main_schema, &main);
        proof {
            bound = params;
        }
        let ghost second = EntrySteps { params, ..first };
        let params = match params {
            Err(e) => {
                assert(steps_of(*backend, *table, *builtins, *types, *host_fns, plan, range, second));
                return Err(e);
            },
            Ok(p) => p,
        };
        let methods: Methods = match methods {
            Err(e) => {
                assert(steps_of(*backend, *table, *builtins, *types, *host_fns, plan, range, second));
                return Err(e);
            },
            Ok(m) => m,
        };
        let low = backend.lowering(
            ExprEnv {
                frame: Frame {
                    params: &params,
                    self_binding: None,
                    method_params: &no_method,
                    types,
                },
                builtins,
                table,
                host_fns: &natives.resolved,
            },
        );
        let env = RecordEnv { low: &low, table, in_scratch: false };
        let mut at: Slots = methods.slots.copy();
        at.lets = 0;
        at.records = 0;
        at.closures = Rc::new(LambdaTable::new());
        match lower_entry_body(&env, &plan, &returned, range, &at) {
            Err(e) => {
                assert(steps_of(*backend, *table, *builtins, *types, *host_fns, plan, range, second));
                return Err(e);
            },
            Ok(f) => (f, methods),
        }
    };
    let ghost steps = EntrySteps { params: bound, ..first };
    assert(steps_of(*backend, *table, *builtins, *types, *host_fns, plan, range, steps));
    let ImportTable { imports } = body.slots.imports.copy();
    match body.slots.closures.into_funcs(range) {
        Err(e) => Err(e),
        Ok(funcs) => {
            let Methods { funcs: method_funcs, .. } = methods;
            let entry: Func = run_main(body, range);
            let module = assemble_module(method_funcs, entry, funcs, imports);
            assert(module_of(module, methods, body@, range));
            let EntryPlan { main_schema, return_schema, .. } = plan;
            Ok(LoweredEntry { module, main_schema, return_schema })
        },
    }
}

/// The error for a module without an entry point.
pub open spec fn missing_main(module: Seq<char>) -> ErrorView {
    ErrorView::MissingMain { module }
}

/// The outcome of lowering an entry module whose types are resolved by the
/// given declarations.
pub open spec fn entry_lowered<B: EntryBackend>(
    backend: B,
    table: StdlibTable,
    builtins: Vec<String>,
    by_name: Seq<(&String, &SchemaDef)>,
    tree: AnalyzedTree,
    module: Seq<char>,
    root: Node,
    r: Result<LoweredEntry, LoweringError>,
) -> bool {
    match tree.main_signature {
        None => r matches Err(e) && e@ == missing_main(module),
        Some(sig) => exists|types: SchemaTable<'_>, p: Result<EntryPlan, LoweringError>|
            types.entries@ == known_types(by_name, by_name.len()) && #[trigger] entry_planned(
                backend,
                types,
                sig,
                root,
                p,
            ) && match p {
                Err(e) => r matches Err(got) && got@ == e@,
                Ok(plan) => plan_lowered(
                    backend,
                    table,
                    builtins,
                    types,
                    tree.host_fns,
                    plan,
                    sig.range,
                    r,
                ),
            },
    }
}

/// Lowers an entry module.
pub fn lower_entry_with_resolver<B: EntryBackend>(
    tree: &AnalyzedTree,
    root: Node,
    module_id: &str,
    resolver: &SchemaResolver<'_>,
    backend: &B,
    table: &StdlibTable,
    builtins: &Vec<String>,
) -> (r: Result<LoweredEntry, LoweringError>)
    requires
        table.wf(),
    ensures
        entry_lowered(
            *backend,
            *table,
            *builtins,
            resolver.by_name@,
            *tree,
            module_id@,
            root,
            r,
        ),
{
    let sig: &MainSignature = match &tree.main_signature {
        None => {
            return Err(LoweringError::MissingMain { module: module_id.to_owned() });
        },
        Some(s) => s,
    };
    let types: SchemaTable<'_> = resolver.types();
    let planned = plan_entry(sig, root, &types, backend);
    assert(entry_planned(*backend, types, *sig, root, planned));
    match planned {
        Err(e) => Err(e),
        Ok(plan) => lower_planned_entry(
            plan,
            &types,
            &tree.host_fns,
            sig.range,
            backend,
            table,
            builtins,
        ),
    }
}

/// The outcome of lowering one module by its own declarations.
pub open spec fn single_lowered<B: EntryBackend>(
    backend: B,
    table: StdlibTable,
    builtins: Vec<String>,
    tree: AnalyzedTree,
    module: Seq<char>,
    root: Node,
    r: Result<LoweredEntry, LoweringError>,
) -> bool {
    exists|by_name: Seq<(&String, &SchemaDef)>|
        declared_view(by_name) == declarations(tree) && #[trigger] entry_lowered(
            backend,
            table,
            builtins,
            by_name,
            tree,
            module,
            root,
            r,
        )
}

/// Lowers one module by its own declarations, under the name `main`.
pub fn lower_workspace_single<B: EntryBackend>(
    tree: &AnalyzedTree,
    root: Node,
    backend: &B,
    table: &StdlibTable,
    builtins: &Vec<String>,
) -> (r: Result<LoweredEntry, LoweringError>)
    requires
        table.wf(),
    ensures
        single_lowered(*backend, *table, *builtins, *tree, "main"@, root, r),
{
    lower_workspace_single_with_module(tree, root, "main", backend, table, builtins)
}

/// Lowers one module by its own declarations.
pub fn lower_workspace_single_with_module<B: EntryBackend>(
    tree: &AnalyzedTree,
    root: Node,
    module_id: &str,
    backend: &B,
    table: &StdlibTable,
    builtins: &Vec<String>,
) -> (r: Result<LoweredEntry, LoweringError>)
    requires
        table.wf(),
    ensures
        single_lowered(*backend, *table, *builtins, *tree, module_id@, root, r),
{
    let resolver = SchemaResolver::new(tree);
    lower_entry_with_resolver(tree, root, module_id, &resolver, backend, table, builtins)
}

// ---------------------------------------------------------------------------
// The workspace.
// ---------------------------------------------------------------------------

/// The contents of modules.
pub open spec fn trees_of<'a>(modules: Seq<(Seq<char>, AnalyzedTree)>) -> Seq<&'a AnalyzedTree> {
    Seq::new(modules.len(), |i: int| &modules[i].1)
}

/// The outcome of lowering the entry module of a workspace by the declarations
/// of all modules that it reaches.
pub open spec fn workspace_lowered<B: EntryBackend>(
    backend: B,
    table: StdlibTable,
    builtins: Vec<String>,
    ws: WorkspaceTree,
    bodies: NameTable<Node>,
    entry: Seq<char>,
    r: Result<LoweredEntry, LoweringError>,
) -> bool {
    match (name_index(ws.modules.entries@, entry, 0), name_index(bodies.entries@, entry, 0)) {
        (Some(t), Some(n)) => {
            let names = reachable(ws, entry);
            let modules = loaded(ws, names, names.len());
            let seen = sightings(modules, modules.len());
            match (first_contradiction(seen, 0), other_main(modules, entry, 0)) {
                (Some(j), _) => r matches Err(e) && e@ == contradiction_error(seen, j),
                (None, Some(i)) => r matches Err(e) && e@ == (ErrorView::MultipleMainDirectives {
                    entry_module: entry,
                    other_module: modules[i].0,
                }),
                (None, None) => exists|by_name: Seq<(&String, &SchemaDef)>|
                    declared_view(by_name) == all_declarations(trees_of(modules), modules.len())
                        && #[trigger] entry_lowered(
                        backend,
                        table,
                        builtins,
                        by_name,
                        ws.modules.entries@[t].1,
                        entry,
                        bodies.entries@[n].1,
                        r,
                    ),
            }
        },
        _ => r matches Err(e) && e@ == (ErrorView::EntryModuleNotFound { module: entry }),
    }
}

/// Lowering one module alone is lowering a workspace that holds only that
/// module: the same results are owed. The names of the types that the module
/// declares at its top are distinct; the workspace refuses two different types
/// of one name, which the module alone does not compare.
pub proof fn law_single_module_is_its_own_workspace<B: EntryBackend>(
    backend: B,
    table: StdlibTable,
    builtins: Vec<String>,
    ws: WorkspaceTree,
    bodies: NameTable<Node>,
    entry: Seq<char>,
    r: Result<LoweredEntry, LoweringError>,
)
    requires
        ws.modules.entries@.len() == 1,
        ws.modules.entries@[0].0@ == entry,
        distinct_tops(ws.modules.entries@[0].1),
        name_index(bodies.entries@, entry, 0) is Some,
    ensures
        workspace_lowered(backend, table, builtins, ws, bodies, entry, r) == single_lowered(
            backend,
            table,
            builtins,
            ws.modules.entries@[0].1,
            entry,
            bodies.entries@[name_index(bodies.entries@, entry, 0)->0].1,
            r,
        ),
{
    law_one_module_stands_alone(ws, entry);
    let tree = ws.modules.entries@[0].1;
    let names = reachable(ws, entry);
    let modules = loaded(ws, names, names.len());
    let trees = trees_of(modules);
    reveal_with_fuel(all_declarations, 2);
    assert(all_declarations(trees, 1) =~= declarations(tree));
    assert(name_index(ws.modules.entries@, entry, 0) == Some(0int));
}

fn collect_trees<'a>(modules: &Vec<LoadedModule<'a>>) -> (r: Vec<&'a AnalyzedTree>)
    ensures
        r@ == trees_of(modules_view(modules@)),
{
    let mut out: Vec<&'a AnalyzedTree> = Vec::new();
    let mut i: usize = 0;
    while i < modules.len()
        invariant
            i <= modules@.len(),
            out@ =~= trees_of(modules_view(modules@)).take(i as int),
        decreases modules@.len() - i,
    {
        out.push(modules[i].tree);
        i += 1;
    }
    out
}

/// Lowers the entry module of a workspace. The bodies are given up: the one of
/// the entry module is rewritten.
pub fn lower_workspace<B: EntryBackend>(
    ws: &WorkspaceTree,
    bodies: NameTable<Node>,
    entry_module: &str,
    backend: &B,
    table: &StdlibTable,
    builtins: &Vec<String>,
) -> (r: Result<LoweredEntry, LoweringError>)
    requires
        table.wf(),
    ensures
        workspace_lowered(*backend, *table, *builtins, *ws, bodies, entry_module@, r),
{
    let entry_tree: &AnalyzedTree = match ws.modules.get(entry_module) {
        None => {
            return Err(LoweringError::EntryModuleNotFound { module: entry_module.to_owned() });
        },
        Some(t) => t,
    };
    let entry_root: Node = match bodies.take(entry_module) {
        None => {
            return Err(LoweringError::EntryModuleNotFound { module: entry_module.to_owned() });
        },
        Some(n) => n,
    };
    let ids: Vec<String> = reachable_modules(ws, entry_module);
    let modules: Vec<LoadedModule<'_>> = load_modules(ws, &ids);
    match detect_cross_file_schema_conflicts(&modules) {
        Err(e) => {
            return Err(e);
        },
        Ok(_) => {},
    }
    match detect_other_main(&modules, entry_module) {
        Err(e) => {
            return Err(e);
        },
        Ok(_) => {},
    }
    let trees = collect_trees(&modules);
    let resolver = SchemaResolver::new_multi(&trees);
    lower_entry_with_resolver(
        entry_tree,
        entry_root,
        entry_module,
        &resolver,
        backend,
        table,
        builtins,
    )
}

// ---------------------------------------------------------------------------
// Entry modules of leaf expressions.
// ---------------------------------------------------------------------------

/// Lowers entry bodies of leaf expressions, without methods. The layouts of the
/// record types are given by name.
#[derive(Debug, PartialEq, Eq)]
pub struct LeafBackend {
    pub layouts: NameTable<OffsetTable>,
}

/// A copy of a layout.
pub fn copy_layout(layout: &OffsetTable) -> (r: OffsetTable)
    ensures
        r@ == layout@,
{
    let mut fields: Vec<FieldSlot> = Vec::new();
    let mut i: usize = 0;
    while i < layout.fields.len()
        invariant
            i <= layout.fields@.len(),
            fields@ =~= layout.fields@.take(i as int),
        decreases layout.fields@.len() - i,
    {
        fields.push(layout.fields[i]);
        i += 1;
    }
    assert(fields@ =~= layout.fields@);
    OffsetTable { root_size: layout.root_size, root_align: layout.root_align, fields }
}

impl ClosurePlanner for LeafBackend {
    open spec fn planned(
        &self,
        params: Seq<ClosureParam>,
        return_type: Option<TypeNode>,
        body: Expr,
    ) -> SigView {
        AnnotatedClosures.planned(params, return_type, body)
    }

    fn plan_closure_sig(
        &self,
        params: &Vec<ClosureParam>,
        return_type: &Option<TypeNode>,
        body: &Expr,
    ) -> (r: ClosureSig) {
        AnnotatedClosures.plan_closure_sig(params, return_type, body)
    }
}

impl EntryBackend for LeafBackend {
    type Low<'p> = LeafLowering;

    open spec fn lowering_in<'p>(&self, env: ExprEnv<'p>) -> LeafLowering {
        LeafLowering
    }

    fn lowering<'p>(&self, env: ExprEnv<'p>) -> (low: LeafLowering) {
        LeafLowering
    }

    open spec fn layout_of(&self, schema: Schema) -> Result<LayoutView, ErrorView> {
        match name_index(self.layouts.entries@, schema.name@, 0) {
            Some(i) => if self.layouts.entries@[i].1.fields@.len() == schema.fields@.len() {
                Ok(self.layouts.entries@[i].1@)
            } else {
                LeafLowering.layout(schema)
            },
            None => LeafLowering.layout(schema),
        }
    }

    fn lay_out(&self, schema: &Schema) -> (r: Result<OffsetTable, LoweringError>) {
        match self.layouts.get(schema.name.as_str()) {
            Some(layout) => if layout.fields.len() == schema.fields.len() {
                Ok(copy_layout(layout))
            } else {
                LeafLowering.offsets_for(schema)
            },
            None => LeafLowering.offsets_for(schema),
        }
    }

    open spec fn methods(
        &self,
        types: SchemaTable<'_>,
        host_fns: NameTable<HostFnEntry>,
    ) -> Result<(Seq<FuncView>, SlotsView), ErrorView> {
        Ok((Seq::empty(), SlotsView::start()))
    }

    fn lower_schema_methods(
        &self,
        types: &SchemaTable<'_>,
        host_fns: &NameTable<HostFnEntry>,
    ) -> (r: Result<Methods, LoweringError>) {
        let funcs: Vec<Func> = Vec::new();
        assert(funcs_view(funcs@) =~= Seq::empty());
        Ok(Methods { funcs, slots: Slots::new() })
    }
}

} // verus!

//! The body of an entry point refers only to what is interned.

use vstd::prelude::*;

use crate::ast::{Expr, Node, TokenKey, TokenRange};
use crate::canonical::SchemaTable;
use crate::constants::{
    closures_known, group_known, grows, interns, kept, known, lemma_grows_after_reserved,
    lemma_known_interns, op_known, well_kept,
};
use crate::constants_expr::{keeping_exprs, law_leaf_expr_lowering_keeps};
use crate::constants_records::{keeping_records, law_typed_value_keeps};
use crate::dict_body::{
    closure_binding, closure_code, constant_code, field_code, fields_from, link_code, source_value,
    visible_code, visible_value,
};
use crate::dict_plan::{AnonDictField, AnonDictPlan};
use crate::entry::{EntryPlan, ReturnShape};
use crate::error::LoweringError;
use crate::expr::ExprEnv;
use crate::field_types::entries_view;
use crate::fragment::{ClosureSig, FragmentView, Scope, SlotsView};
use crate::ir::{texts, IrType, OpView, TaggedOpView};
use crate::lowering::{
    entry_body, entry_function, first_slots, module_of, plan_lowered, stepped_body, steps_lead_to,
    steps_of, EntryBackend, EntrySteps, LeafBackend, Methods,
};
use crate::module::{assembled, filled, funcs_view, Func, FuncView, LoweredEntry, Module};
use crate::native_import::{imports_view, HostFnTables, NativeImport};
use crate::nested::{law_nested_lowering_keeps, Deepened, Nested};
use crate::records::{OffsetTable, RecordBody, RecordEnv, RecordLowering};
use crate::reference::Frame;
use crate::shape::{ir_type_of, no_range};
use crate::stdlib::StdlibTable;
use crate::types::{Schema, TypeRepr};

verus! {

broadcast use group_known;

proof fn lemma_constant_keeps(name: String, op: OpView, ty: IrType, at: SlotsView)
    requires
        op is ConstDict || op is ConstListString,
    ensures
        grows(at, constant_code(name, op, ty, at).slots),
        known(constant_code(name, op, ty, at).ops, constant_code(name, op, ty, at).slots),
{
    let code = constant_code(name, op, ty, at);
    assert(op_known(TaggedOpView { op, range: no_range() }, code.slots));
}

proof fn lemma_closure_field_keeps<L: RecordLowering>(
    low: L,
    name: String,
    sig: &ClosureSig,
    pairs: Seq<(TokenKey, Node)>,
    scope: Scope<'_>,
    at: SlotsView,
)
    requires
        keeping_records(low),
    ensures
        closure_code(low, name, sig, pairs, scope, at) matches Ok(c) ==> grows(at, c.slots)
            && known(c.ops, c.slots),
{
    match closure_code(low, name, sig, pairs, scope, at) {
        Ok(c) => {
            let value = source_value(pairs, name@)->0;
            let b = closure_binding(name, at.lets, sig);
            let inner = at.after(1);
            assert(kept(
                inner,
                low.closure_lowered(
                    value,
                    sig.params@,
                    sig.ret,
                    Scope::Bind(b, &scope),
                    inner,
                ),
            ));
        },
        Err(_) => {},
    }
}

proof fn lemma_visible_field_keeps<L: RecordLowering>(
    env: RecordEnv<'_, L>,
    name: String,
    ty: TypeRepr,
    schema: Schema,
    layout: OffsetTable,
    pairs: Seq<(TokenKey, Node)>,
    record: u32,
    scope: Scope<'_>,
    at: SlotsView,
)
    requires
        keeping_records(*env.low),
    ensures
        visible_code::<L>(env, name, ty, schema, layout, pairs, record, scope, at) matches Ok(c)
            ==> grows(at, c.slots) && known(c.ops, c.slots),
{
    match visible_code::<L>(env, name, ty, schema, layout, pairs, record, scope, at) {
        Ok(c) => {
            let value = source_value(pairs, name@)->0;
            let irt = ir_type_of(ty)->0;
            law_typed_value_keeps(env, ty, value, scope, at);
            assert(kept(at, env.low.lowered(value, scope, at)));
            assert(well_kept(at, visible_value(env, name@, ty, irt, value, scope, at)->Ok_0));
        },
        Err(_) => {},
    }
}

proof fn lemma_link_field_keeps<L: RecordLowering>(
    low: L,
    name: Seq<char>,
    ty: TypeRepr,
    schema: Schema,
    layout: OffsetTable,
    pairs: Seq<(TokenKey, Node)>,
    record: u32,
    scope: Scope<'_>,
    at: SlotsView,
)
    requires
        keeping_records(low),
    ensures
        link_code::<L>(low, name, ty, schema, layout, pairs, record, scope, at) matches Ok(c)
            ==> grows(at, c.slots) && known(c.ops, c.slots),
{
    match source_value(pairs, name) {
        Some(value) => {
            assert(kept(at, low.lowered(value, scope, at)));
        },
        None => {},
    }
}

proof fn lemma_field_keeps<L: RecordLowering>(
    env: RecordEnv<'_, L>,
    field: &AnonDictField,
    schema: Schema,
    layout: OffsetTable,
    pairs: Seq<(TokenKey, Node)>,
    record: u32,
    scope: Scope<'_>,
    at: SlotsView,
)
    requires
        keeping_records(*env.low),
    ensures
        field_code(env, field, schema, layout, pairs, record, scope, at) matches Ok(c) ==> grows(
            at,
            c.slots,
        ) && known(c.ops, c.slots),
{
    match *field {
        AnonDictField::Closure { name, sig } => {
            lemma_closure_field_keeps(*env.low, name, &sig, pairs, scope, at);
        },
        AnonDictField::DictStrInt { name, entries } => {
            lemma_constant_keeps(
                name,
                OpView::ConstDict {
                    idx: at.pool.dicts,
                    entries: entries_view(entries@),
                },
                IrType::Dict,
                at.with_pool(at.pool.after_dict()),
            );
        },
        AnonDictField::ListString { name, elements } => {
            lemma_constant_keeps(
                name,
                OpView::ConstListString {
                    idx: at.pool.string_lists,
                    elements: texts(elements@),
                },
                IrType::ListString,
                at.with_pool(at.pool.after_string_list()),
            );
        },
        AnonDictField::Scalar { name, ty } => {
            lemma_visible_field_keeps(env, name, ty, schema, layout, pairs, record, scope, at);
        },
        AnonDictField::CrossRegionParamList { name, ty } => {
            lemma_link_field_keeps(*env.low, name@, ty, schema, layout, pairs, record, scope, at);
        },
    }
}

/// The fields of a dictionary body refer to what is interned.
pub proof fn law_dict_body_keeps<L: RecordLowering>(
    env: RecordEnv<'_, L>,
    plan: AnonDictPlan,
    layout: OffsetTable,
    pairs: Seq<(TokenKey, Node)>,
    record: u32,
    from: int,
    scope: Scope<'_>,
    at: SlotsView,
)
    requires
        keeping_records(*env.low),
    ensures
        kept(at, fields_from(env, plan, layout, pairs, record, from, scope, at)),
    decreases plan.emit_order@.len() - from,
{
    if 0 <= from < plan.emit_order@.len() {
        let field = &plan.fields@[plan.emit_order@[from] as int];
        lemma_field_keeps(env, field, plan.schema, layout, pairs, record, scope, at);
        match field_code(env, field, plan.schema, layout, pairs, record, scope, at) {
            Err(_) => {},
            Ok(code) => {
                let inner = match code.binding {
                    Some(b) => Scope::Bind(b, &scope),
                    None => scope,
                };
                law_dict_body_keeps(
                    env,
                    plan,
                    layout,
                    pairs,
                    record,
                    from + 1,
                    inner,
                    code.slots,
                );
            },
        }
    }
}

/// The body of an entry point refers only to strings and imports that are
/// interned when it is done, and keeps those that were interned before it.
pub proof fn law_entry_body_keeps<L: RecordLowering>(
    env: RecordEnv<'_, L>,
    plan: EntryPlan,
    layout: OffsetTable,
    range: TokenRange,
    at: SlotsView,
)
    requires
        keeping_records(*env.low),
    ensures
        kept(at, entry_body(env, plan, layout, range, at)),
{
    let root = plan.root;
    let inner = at.after_record();
    match plan.shape {
        ReturnShape::Fields(fields) => match *root.expr {
            Expr::Dict(pairs) => {
                law_dict_body_keeps(
                    env,
                    fields,
                    layout,
                    pairs@,
                    at.records,
                    0,
                    Scope::Empty,
                    inner,
                );
            },
            _ => {},
        },
        ReturnShape::Value => {
            let ty = plan.return_schema.fields@[0].ty;
            law_typed_value_keeps(env, ty, root, Scope::Empty, at);
        },
        _ => {
            assert(kept(
                inner,
                env.low.record_body(
                    RecordBody::Declared,
                    plan.return_schema,
                    root,
                    at.records,
                    root.range,
                    Scope::Empty,
                    inner,
                ),
            ));
            assert(kept(
                inner,
                env.low.record_body(
                    RecordBody::Tuple,
                    plan.return_schema,
                    root,
                    at.records,
                    root.range,
                    Scope::Empty,
                    inner,
                ),
            ));
        },
    }
}

// ---------------------------------------------------------------------------
// Modules.
// ---------------------------------------------------------------------------

/// What the backend lowers is well kept, among any names.
pub open spec fn keeping_backend<B: EntryBackend>(backend: B) -> bool {
    forall|env: ExprEnv<'_>| keeping_exprs(#[trigger] backend.lowering_in(env))
}

/// The entry function of a module and its closures call only host functions
/// that the module imports.
pub open spec fn calls_known(module: Module) -> bool {
    exists|at: SlotsView| #[trigger]
        known(module.funcs@[module.entry_func_index->0 as int]@.body, at) && at.imports
            == imports_view(module.imports@) && forall|k: int|
            module.entry_func_index->0 < k < module.funcs@.len() ==> known(
                (#[trigger] module.funcs@[k])@.body,
                at,
            )
}

/// A module that is lowered calls, in its entry function and in its closures,
/// only host functions that it imports.
pub proof fn law_module_imports_what_it_calls<'a, B: EntryBackend>(
    backend: B,
    table: StdlibTable,
    builtins: Vec<String>,
    types: SchemaTable<'a>,
    host_fns: HostFnTables,
    plan: EntryPlan,
    range: TokenRange,
    r: Result<LoweredEntry, LoweringError>,
)
    requires
        keeping_backend(backend),
        plan_lowered(backend, table, builtins, types, host_fns, plan, range, r),
    ensures
        r matches Ok(entry) ==> calls_known(entry.module),
{
    match r {
        Err(_) => {},
        Ok(entry) => {
            let steps = choose|steps: EntrySteps<'a>| #[trigger]
                steps_of(backend, table, builtins, types, host_fns, plan, range, steps)
                    && steps_lead_to(backend, table, builtins, types, plan, range, steps, r);
            let body = stepped_body(backend, table, builtins, types, plan, range, steps)->Ok_0;
            let env = ExprEnv {
                frame: Frame {
                    params: &steps.params->Ok_0,
                    self_binding: None,
                    method_params: &steps.no_method,
                    types: &types,
                },
                builtins: &builtins,
                table: &table,
                host_fns: &steps.natives.resolved,
            };
            let at = first_slots(steps.methods->Ok_0.slots@);
            law_entry_body_keeps(
                RecordEnv { low: &backend.lowering_in(env), table: &table, in_scratch: false },
                plan,
                steps.return_layout->Ok_0,
                range,
                at,
            );
            lemma_closures_stay_known(at, body.slots);
            let (run, lambdas, imports) = choose|
                run: Func,
                lambdas: Seq<Func>,
                imports: Seq<NativeImport>,
            |
                run@ == entry_function(body, range) && filled(
                    body.slots.closures,
                    funcs_view(lambdas),
                ) && imports_view(imports) == body.slots.imports && #[trigger] assembled(
                    entry.module,
                    steps.methods->Ok_0.funcs@,
                    run,
                    lambdas,
                    imports,
                );
            let methods = steps.methods->Ok_0.funcs;
            assert(methods.len() == methods@.len());
            assert(entry.module.funcs@[methods@.len() as int] == run);
            assert(known(run@.body, body.slots));
            assert forall|k: int|
                methods@.len() < k < entry.module.funcs@.len() implies known(
                (#[trigger] entry.module.funcs@[k])@.body,
                body.slots,
            ) by {
                let i = k - methods@.len() - 1;
                assert(entry.module.funcs@[k] == lambdas[i]);
                assert(body.slots.closures[i] == Some(funcs_view(lambdas)[i]));
            }
        },
    }
}

proof fn lemma_closures_stay_known(a: SlotsView, b: SlotsView)
    requires
        grows(a, b),
        a.closures.len() == 0,
    ensures
        closures_known(b),
{
    reveal(grows);
}

/// A closure number that was filled by the time some part of the entry body was
/// lowered stands, in the finished module, for the function it was filled with.
pub proof fn law_closure_number_names_its_function(
    module: Module,
    methods: Methods,
    body: FragmentView,
    range: TokenRange,
    behind: SlotsView,
    i: int,
)
    requires
        module_of(module, methods, body, range),
        module.funcs@.len() <= u32::MAX,
        grows(behind, body.slots),
        0 <= i < behind.closures.len(),
        behind.closures[i] is Some,
    ensures
        i < module.closure_table@.len(),
        module.funcs@[module.closure_table@[i] as int]@ == behind.closures[i]->0,
{
    reveal(grows);
    let (entry, lambdas, imports) = choose|
        entry: Func,
        lambdas: Seq<Func>,
        imports: Seq<NativeImport>,
    |
        entry@ == entry_function(body, range) && filled(body.slots.closures, funcs_view(lambdas))
            && imports_view(imports) == body.slots.imports && #[trigger] assembled(
            module,
            methods.funcs@,
            entry,
            lambdas,
            imports,
        );
    assert(behind.closures[i] == body.slots.closures.take(behind.closures.len() as int)[i]);
    assert(body.slots.closures[i] == Some(funcs_view(lambdas)[i]));
    assert(module.funcs@[methods.funcs@.len() + 1 + i] == lambdas[i]);
}

/// A closure that takes its number before its body is lowered, and fills it
/// behind the body, keeps what was there; its number comes before those of the
/// closures in its body.
pub proof fn law_closure_around_its_body_keeps(at: SlotsView, behind: SlotsView, func: FuncView)
    requires
        grows(at.after_reserved(), behind),
        known(func.body, behind),
    ensures
        ({
            let idx = at.closures.len() as int;
            let filled = behind.with_closure(idx, func);
            &&& grows(at, filled)
            &&& filled.closures[idx] == Some(func)
            &&& forall|k: int|
                idx < k < behind.closures.len() ==> filled.closures[k] == #[trigger] behind.closures[k]
        }),
{
    reveal(grows);
    let idx = at.closures.len() as int;
    let filled = behind.with_closure(idx, func);
    let reserved = at.after_reserved();
    assert(reserved.closures =~= behind.closures.take(idx + 1));
    assert forall|i: int| 0 <= i < idx implies at.closures[i] == filled.closures[i] by {
        assert(reserved.closures[i] == behind.closures.take(idx + 1)[i]);
    }
    assert(at.closures =~= filled.closures.take(idx));
    assert(interns(behind, filled));
    if closures_known(at) {
        lemma_grows_after_reserved(at);
        reveal(grows);
        assert(closures_known(behind));
        assert forall|i: int|
            0 <= i < filled.closures.len() && (#[trigger] filled.closures[i]) is Some implies known(
            filled.closures[i]->0.body,
            filled,
        ) by {
            if i == idx {
                lemma_known_interns(func.body, behind, filled);
            } else {
                assert(behind.closures[i] is Some);
                lemma_known_interns(behind.closures[i]->0.body, behind, filled);
            }
        }
    }
}

/// The backend for leaf expressions is well kept.
pub proof fn law_leaf_backend_keeps(backend: LeafBackend)
    ensures
        keeping_backend(backend),
{
    law_leaf_expr_lowering_keeps();
}

/// A deepened backend is well kept where the one in it is.
pub proof fn law_deepened_backend_keeps<B: EntryBackend>(backend: Deepened<B>)
    requires
        keeping_backend(backend.inner),
    ensures
        keeping_backend(backend),
{
    assert forall|env: ExprEnv<'_>| keeping_exprs(#[trigger] backend.lowering_in(env)) by {
        assert(keeping_exprs(backend.inner.lowering_in(env)));
        law_nested_lowering_keeps(Nested { env, inner: backend.inner.lowering_in(env) });
    }
}

} // verus!

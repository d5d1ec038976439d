//! What lowering gives is decided by what it is given.

use vstd::prelude::*;

use crate::ast::{CallArg, Decorator, Directive, Expr, Node, TokenKey, TokenRange};
use crate::canonical::{MainSignature, SchemaTable};
use crate::components::targets;
use crate::decorators::{dict_pairs, field_desugared, nothing_to_desugar, wraps};
use crate::dict_plan::{
    anon_fields_view, canonical_params, param_names, plan_after_order, plan_outcome, planned_pairs,
    AnonDictField, AnonDictPlan, ClosurePlanner, PlanView,
};
use crate::emit_order::{dict_graph, emit_order_outcome, lemma_graph_in_bounds};
use crate::entry::{
    closure_at_boundary, decorator_refused, entry_planned, open_planned, return_kind, rewritten,
    EntryPlan, ReturnKind, ReturnShape,
};
use crate::error::{ErrorView, LoweringError};
use crate::fragment::FragmentView;
use crate::ir::{texts, IrType};
use crate::lowering::{
    entry_function, entry_lowered, law_single_module_is_its_own_workspace, methods_outcome,
    module_of, plan_lowered, single_lowered, stepped_body, steps_lead_to, steps_of,
    workspace_lowered, EntryBackend, EntrySteps, Methods,
};
use crate::module::{assembled, filled, first_unfilled, funcs_view, Func, LoweredEntry, Module};
use crate::names::{name_index, NameTable};
use crate::native_import::{imports_view, HostFnEntry, HostFnTables, NativeImport};
use crate::records::{FieldSlot, OffsetTable};
use crate::reference::MethodParam;
use crate::schedule::{cycle, law_stuck_iff_cycle};
use crate::shape::LocalBinding;
use crate::stdlib::StdlibTable;
use crate::types::{
    field_view, fields_view, lemma_fields_view, lemma_variants_view, schema_view, type_view,
    variant_view, variants_view, EnumVariant, Field, Schema, TypeRepr,
};
use crate::workspace::{
    declarations, declared_view, distinct_tops, known_types, AnalyzedTree, SchemaDef,
    WorkspaceTree,
};

verus! {

// ---------------------------------------------------------------------------
// Values that are told by their contents.
// ---------------------------------------------------------------------------

/// Texts of the same characters are the same.
#[verifier::opaque]
pub open spec fn by_characters() -> bool {
    forall|a: String, b: String| #![trigger a@, b@] a@ == b@ ==> a == b
}

/// Lists of the same elements are the same.
#[verifier::opaque]
pub open spec fn by_elements<T>() -> bool {
    forall|a: Vec<T>, b: Vec<T>| #![trigger a@, b@] a@ == b@ ==> a == b
}

/// Texts and the lists in a plan are told by what they hold. The contracts of
/// texts and lists speak of what they hold alone, and leave open whether two that
/// hold the same are one value; the laws below ask for it.
pub open spec fn told_by_contents() -> bool {
    &&& by_characters()
    &&& by_elements::<String>()
    &&& by_elements::<bool>()
    &&& by_elements::<u32>()
    &&& by_elements::<usize>()
    &&& by_elements::<IrType>()
    &&& by_elements::<(String, i64)>()
    &&& by_elements::<Field>()
    &&& by_elements::<EnumVariant>()
    &&& by_elements::<AnonDictField>()
    &&& by_elements::<FieldSlot>()
    &&& by_elements::<MethodParam>()
    &&& by_elements::<LocalBinding<'_>>()
    &&& by_elements::<(String, HostFnEntry)>()
    &&& by_elements::<(String, &SchemaDef)>()
    &&& by_elements::<CallArg>()
    &&& by_elements::<Decorator>()
    &&& by_elements::<Directive>()
    &&& by_elements::<(TokenKey, Node)>()
}

proof fn lemma_same_text(a: String, b: String)
    requires
        by_characters(),
        a@ == b@,
    ensures
        a == b,
{
    reveal(by_characters);
}

proof fn lemma_same_list<T>(a: Vec<T>, b: Vec<T>)
    requires
        by_elements::<T>(),
        a@ == b@,
    ensures
        a == b,
{
    reveal(by_elements);
}

// ---------------------------------------------------------------------------
// Types.
// ---------------------------------------------------------------------------

proof fn lemma_same_type(a: TypeRepr, b: TypeRepr)
    requires
        told_by_contents(),
        type_view(a) == type_view(b),
    ensures
        a == b,
    decreases a,
{
    match (a, b) {
        (TypeRepr::List { element: x }, TypeRepr::List { element: y }) => {
            lemma_same_type(*x, *y);
        },
        (TypeRepr::Option { inner: x }, TypeRepr::Option { inner: y }) => {
            lemma_same_type(*x, *y);
        },
        (TypeRepr::Result { ok: x, err: v }, TypeRepr::Result { ok: y, err: w }) => {
            lemma_same_type(*x, *y);
            lemma_same_type(*v, *w);
        },
        (TypeRepr::Schema { schema: x }, TypeRepr::Schema { schema: y }) => {
            lemma_same_schema(*x, *y);
        },
        (
            TypeRepr::Enum { name: m, variants: x },
            TypeRepr::Enum { name: n, variants: y },
        ) => {
            lemma_same_text(m, n);
            lemma_variants_view(x@);
            lemma_variants_view(y@);
            assert forall|i: int| 0 <= i < x@.len() implies #[trigger] x@[i] == y@[i] by {
                assert(variants_view(x@)[i] == variants_view(y@)[i]);
                lemma_same_variant(x@[i], y@[i]);
            }
            assert(x@ =~= y@);
            lemma_same_list(x, y);
        },
        _ => {},
    }
}

proof fn lemma_same_variant(a: EnumVariant, b: EnumVariant)
    requires
        told_by_contents(),
        variant_view(a) == variant_view(b),
    ensures
        a == b,
    decreases a,
{
    lemma_same_text(a.name, b.name);
    match (a.payload, b.payload) {
        (Some(x), Some(y)) => {
            lemma_same_type(*x, *y);
        },
        _ => {},
    }
}

proof fn lemma_same_schema(a: Schema, b: Schema)
    requires
        told_by_contents(),
        schema_view(a) == schema_view(b),
    ensures
        a == b,
    decreases a,
{
    lemma_same_text(a.name, b.name);
    let x = a.fields;
    let y = b.fields;
    lemma_fields_view(x@);
    lemma_fields_view(y@);
    assert forall|i: int| 0 <= i < x@.len() implies #[trigger] x@[i] == y@[i] by {
        assert(fields_view(x@)[i] == fields_view(y@)[i]);
        lemma_same_field(x@[i], y@[i]);
    }
    assert(x@ =~= y@);
    lemma_same_list(x, y);
}

proof fn lemma_same_field(a: Field, b: Field)
    requires
        told_by_contents(),
        field_view(a) == field_view(b),
    ensures
        a == b,
    decreases a,
{
    lemma_same_text(a.name, b.name);
    lemma_same_type(a.ty, b.ty);
}

proof fn lemma_same_fields(a: Seq<Field>, b: Seq<Field>)
    requires
        told_by_contents(),
        fields_view(a) == fields_view(b),
    ensures
        a == b,
{
    lemma_fields_view(a);
    lemma_fields_view(b);
    assert(a.len() == b.len());
    assert forall|i: int| 0 <= i < a.len() implies #[trigger] a[i] == b[i] by {
        assert(fields_view(a)[i] == field_view(a[i]));
        assert(fields_view(b)[i] == field_view(b[i]));
        lemma_same_field(a[i], b[i]);
    }
    assert(a =~= b);
}

// ---------------------------------------------------------------------------
// Plans.
// ---------------------------------------------------------------------------

proof fn lemma_same_anon_field(a: AnonDictField, b: AnonDictField)
    requires
        told_by_contents(),
        a@ == b@,
    ensures
        a == b,
{
    match (a, b) {
        (
            AnonDictField::Closure { name: m, sig: x },
            AnonDictField::Closure { name: n, sig: y },
        ) => {
            lemma_same_text(m, n);
            lemma_same_list(x.params, y.params);
            lemma_same_list(x.coercible, y.coercible);
        },
        (AnonDictField::Scalar { name: m, ty: x }, AnonDictField::Scalar { name: n, ty: y }) => {
            lemma_same_text(m, n);
            lemma_same_type(x, y);
        },
        (
            AnonDictField::CrossRegionParamList { name: m, ty: x },
            AnonDictField::CrossRegionParamList { name: n, ty: y },
        ) => {
            lemma_same_text(m, n);
            lemma_same_type(x, y);
        },
        (
            AnonDictField::DictStrInt { name: m, entries: x },
            AnonDictField::DictStrInt { name: n, entries: y },
        ) => {
            lemma_same_text(m, n);
            let v = crate::field_types::entries_view(x@);
            let w = crate::field_types::entries_view(y@);
            assert(v.len() == w.len());
            assert forall|i: int| 0 <= i < x@.len() implies #[trigger] x@[i] == y@[i] by {
                assert(v[i] == w[i]);
                lemma_same_text(x@[i].0, y@[i].0);
            }
            assert(x@ =~= y@);
            lemma_same_list(x, y);
        },
        (
            AnonDictField::ListString { name: m, elements: x },
            AnonDictField::ListString { name: n, elements: y },
        ) => {
            lemma_same_text(m, n);
            let v = texts(x@);
            let w = texts(y@);
            assert(v.len() == w.len());
            assert forall|i: int| 0 <= i < x@.len() implies #[trigger] x@[i] == y@[i] by {
                assert(v[i] == w[i]);
                lemma_same_text(x@[i], y@[i]);
            }
            assert(x@ =~= y@);
            lemma_same_list(x, y);
        },
        _ => {},
    }
}

proof fn lemma_same_plan(a: AnonDictPlan, b: AnonDictPlan)
    requires
        told_by_contents(),
        a@ == b@,
    ensures
        a == b,
{
    lemma_same_schema(a.schema, b.schema);
    let x = a.fields;
    let y = b.fields;
    let v = anon_fields_view(x@);
    let w = anon_fields_view(y@);
    assert(v.len() == w.len());
    assert forall|i: int| 0 <= i < x@.len() implies #[trigger] x@[i] == y@[i] by {
        assert(v[i] == w[i]);
        lemma_same_anon_field(x@[i], y@[i]);
    }
    assert(x@ =~= y@);
    lemma_same_list(x, y);
    let s = targets(a.emit_order);
    let t = targets(b.emit_order);
    assert(s.len() == t.len());
    assert forall|i: int| 0 <= i < s.len() implies #[trigger] a.emit_order@[i]
        == b.emit_order@[i] by {
        assert(s[i] == t[i]);
    }
    assert(a.emit_order@ =~= b.emit_order@);
    lemma_same_list(a.emit_order, b.emit_order);
}

proof fn lemma_same_wrapping(a: Node, b: Node, value: Node, decs: Seq<Decorator>)
    requires
        told_by_contents(),
        wraps(a, value, decs),
        wraps(b, value, decs),
        a.directives == b.directives,
        a.type_hint == b.type_hint,
    ensures
        a == b,
    decreases decs.len(),
{
    assert(a.decorators@ =~= b.decorators@);
    lemma_same_list(a.decorators, b.decorators);
    if decs.len() > 0 {
        match (*a.expr, *b.expr) {
            (Expr::FnCall { path: p, args: x }, Expr::FnCall { path: q, args: y }) => {
                let m = x@[0].value;
                let n = y@[0].value;
                assert(m.directives@ =~= n.directives@);
                lemma_same_list(m.directives, n.directives);
                lemma_same_wrapping(m, n, value, decs.drop_first());
                assert(x@[0] == y@[0]);
                assert forall|i: int| 0 < i < x@.len() implies #[trigger] x@[i] == y@[i] by {
                    assert(x@.drop_first()[i - 1] == y@.drop_first()[i - 1]);
                }
                assert(x@ =~= y@);
                lemma_same_list(x, y);
            },
            _ => {},
        }
    }
}

proof fn lemma_same_body(root: Node, a: Node, b: Node)
    requires
        told_by_contents(),
        rewritten(root, a),
        rewritten(root, b),
    ensures
        a == b,
{
    if !nothing_to_desugar(root) {
        let old_pairs = dict_pairs(root)->0;
        match (*a.expr, *b.expr) {
            (Expr::Dict(x), Expr::Dict(y)) => {
                assert forall|i: int| 0 <= i < x@.len() implies #[trigger] x@[i] == y@[i] by {
                    assert(field_desugared(old_pairs[i], x@[i]));
                    assert(field_desugared(old_pairs[i], y@[i]));
                    let value = old_pairs[i].1;
                    if value.decorators@.len() > 0 {
                        lemma_same_wrapping(x@[i].1, y@[i].1, value, value.decorators@);
                    }
                }
                assert(x@ =~= y@);
                lemma_same_list(x, y);
            },
            _ => {},
        }
    }
}

/// The fields of the dictionary that the entry returns, if it returns one field
/// by field, do not refer to one another in a circle.
pub open spec fn without_cycles(tree: AnalyzedTree, root: Node) -> bool {
    forall|sig: MainSignature, body: Node, walk: Seq<int>|
        tree.main_signature == Some(sig) && #[trigger] rewritten(root, body)
            && planned_pairs(sig, body) is Some ==> !(#[trigger] cycle(
            dict_graph(planned_pairs(sig, body)->0),
            walk,
        ))
}

proof fn lemma_one_plan<P: ClosurePlanner>(
    planner: P,
    types: SchemaTable<'_>,
    tree: AnalyzedTree,
    root: Node,
    body: Node,
    a: Result<Option<PlanView>, ErrorView>,
    b: Result<Option<PlanView>, ErrorView>,
)
    requires
        told_by_contents(),
        tree.main_signature is Some,
        without_cycles(tree, root),
        rewritten(root, body),
        plan_outcome(planner, types, tree.main_signature->0, body, a),
        plan_outcome(planner, types, tree.main_signature->0, body, b),
    ensures
        a == b,
{
    let sig = tree.main_signature->0;
    match planned_pairs(sig, body) {
        None => {},
        Some(pairs) => {
            let g = dict_graph(pairs);
            lemma_graph_in_bounds(pairs);
            law_stuck_iff_cycle(g);
            let names = param_names(sig.params@);
            let (o, x) = choose|order: Result<Seq<int>, ErrorView>, params: Seq<Field>|
                #![trigger emit_order_outcome(pairs, names, body.range, order), fields_view(params)]
                emit_order_outcome(pairs, names, body.range, order) && fields_view(params)
                    == canonical_params(types, sig.params@) && a == plan_after_order(
                    planner,
                    types.entries@,
                    params,
                    sig,
                    pairs,
                    body.range,
                    order,
                );
            let (q, y) = choose|order: Result<Seq<int>, ErrorView>, params: Seq<Field>|
                #![trigger emit_order_outcome(pairs, names, body.range, order), fields_view(params)]
                emit_order_outcome(pairs, names, body.range, order) && fields_view(params)
                    == canonical_params(types, sig.params@) && b == plan_after_order(
                    planner,
                    types.entries@,
                    params,
                    sig,
                    pairs,
                    body.range,
                    order,
                );
            lemma_same_fields(x, y);
            assert(o == q);
        },
    }
}

proof fn lemma_one_entry_plan<P: ClosurePlanner>(
    planner: P,
    types: SchemaTable<'_>,
    tree: AnalyzedTree,
    root: Node,
    a: Result<EntryPlan, LoweringError>,
    b: Result<EntryPlan, LoweringError>,
)
    requires
        told_by_contents(),
        tree.main_signature is Some,
        without_cycles(tree, root),
        entry_planned(planner, types, tree.main_signature->0, root, a),
        entry_planned(planner, types, tree.main_signature->0, root, b),
    ensures
        match (a, b) {
            (Ok(p), Ok(q)) => p == q,
            (Err(d), Err(e)) => d@ == e@,
            _ => false,
        },
{
    let sig = tree.main_signature->0;
    if let (Ok(p), Ok(q)) = (a, b) {
        if schema_view(p.main_schema) == schema_view(q.main_schema) {
            lemma_same_schema(p.main_schema, q.main_schema);
        }
        if schema_view(p.return_schema) == schema_view(q.return_schema) {
            lemma_same_schema(p.return_schema, q.return_schema);
        }
        if let (ReturnShape::Fields(f), ReturnShape::Fields(g)) = (p.shape, q.shape) {
            if f@ == g@ {
                lemma_same_plan(f, g);
            }
        }
    }
    if closure_at_boundary(sig) is None && return_kind(types, sig) == Ok::<ReturnKind, ErrorView>(
        ReturnKind::Open,
    ) && decorator_refused(root) is None {
        let x = choose|body: Node| #[trigger]
            rewritten(root, body) && open_planned(planner, types, sig, body, a);
        let y = choose|body: Node| #[trigger]
            rewritten(root, body) && open_planned(planner, types, sig, body, b);
        lemma_same_body(root, x, y);
        lemma_one_open_plan(planner, types, tree, root, x, a, b);
    }
}

proof fn lemma_one_open_plan<P: ClosurePlanner>(
    planner: P,
    types: SchemaTable<'_>,
    tree: AnalyzedTree,
    root: Node,
    body: Node,
    a: Result<EntryPlan, LoweringError>,
    b: Result<EntryPlan, LoweringError>,
)
    requires
        told_by_contents(),
        tree.main_signature is Some,
        without_cycles(tree, root),
        rewritten(root, body),
        open_planned(planner, types, tree.main_signature->0, body, a),
        open_planned(planner, types, tree.main_signature->0, body, b),
    ensures
        match (a, b) {
            (Ok(p), Ok(q)) => p == q,
            (Err(d), Err(e)) => d@ == e@,
            _ => false,
        },
{
    let sig = tree.main_signature->0;
    if let (Ok(p), Ok(q)) = (a, b) {
        if schema_view(p.main_schema) == schema_view(q.main_schema) {
            lemma_same_schema(p.main_schema, q.main_schema);
        }
        if schema_view(p.return_schema) == schema_view(q.return_schema) {
            lemma_same_schema(p.return_schema, q.return_schema);
        }
        if let (ReturnShape::Fields(f), ReturnShape::Fields(g)) = (p.shape, q.shape) {
            if f@ == g@ {
                lemma_same_plan(f, g);
            }
        }
    }
    assert forall|
        v: Result<Option<PlanView>, ErrorView>,
        w: Result<Option<PlanView>, ErrorView>,
    |
        #[trigger] plan_outcome(planner, types, sig, body, v) && #[trigger] plan_outcome(
            planner,
            types,
            sig,
            body,
            w,
        ) implies v == w by {
        lemma_one_plan(planner, types, tree, root, body, v, w);
    }
}

// ---------------------------------------------------------------------------
// Results.
// ---------------------------------------------------------------------------

/// The results are the same: modules of the same imports, functions, entry and
/// closures, with the same record types; or the same error.
pub open spec fn same_result(
    a: Result<LoweredEntry, LoweringError>,
    b: Result<LoweredEntry, LoweringError>,
) -> bool {
    match (a, b) {
        (Ok(x), Ok(y)) => {
            &&& imports_view(x.module.imports@) == imports_view(y.module.imports@)
            &&& funcs_view(x.module.funcs@) == funcs_view(y.module.funcs@)
            &&& x.module.entry_func_index == y.module.entry_func_index
            &&& x.module.closure_table@ == y.module.closure_table@
            &&& x.main_schema == y.main_schema
            &&& x.return_schema == y.return_schema
        },
        (Err(d), Err(e)) => d@ == e@,
        _ => false,
    }
}

proof fn lemma_same_layout(a: OffsetTable, b: OffsetTable)
    requires
        told_by_contents(),
        a@ == b@,
    ensures
        a == b,
{
    lemma_same_list(a.fields, b.fields);
}

proof fn lemma_same_host_fns(a: NameTable<HostFnEntry>, b: NameTable<HostFnEntry>)
    requires
        told_by_contents(),
        crate::native_import::entries_view(a.entries@) == crate::native_import::entries_view(
            b.entries@,
        ),
    ensures
        a == b,
{
    let v = crate::native_import::entries_view(a.entries@);
    let w = crate::native_import::entries_view(b.entries@);
    let x = a.entries@;
    let y = b.entries@;
    assert(v.len() == w.len());
    assert forall|i: int| 0 <= i < x.len() implies #[trigger] x[i] == y[i] by {
        assert(v[i] == w[i]);
        lemma_same_text(x[i].0, y[i].0);
        lemma_same_list(x[i].1.param_tys, y[i].1.param_tys);
        lemma_same_list(x[i].1.required_bits, y[i].1.required_bits);
    }
    assert(x =~= y);
    lemma_same_list(a.entries, b.entries);
}

/// The steps lead to one body, from methods of the same functions.
proof fn lemma_one_body<'a, B: EntryBackend>(
    backend: B,
    table: StdlibTable,
    builtins: Vec<String>,
    types: SchemaTable<'a>,
    host_fns: HostFnTables,
    plan: EntryPlan,
    range: TokenRange,
    a: EntrySteps<'a>,
    b: EntrySteps<'a>,
)
    requires
        told_by_contents(),
        steps_of(backend, table, builtins, types, host_fns, plan, range, a),
        steps_of(backend, table, builtins, types, host_fns, plan, range, b),
    ensures
        stepped_body(backend, table, builtins, types, plan, range, a) == stepped_body(
            backend,
            table,
            builtins,
            types,
            plan,
            range,
            b,
        ),
        methods_outcome(a.methods) == methods_outcome(b.methods),
{
    lemma_same_host_fns(a.natives.resolved, b.natives.resolved);
    assert(a.no_method@ =~= b.no_method@);
    lemma_same_list(a.no_method, b.no_method);
    if let (Ok(x), Ok(y)) = (a.main_layout, b.main_layout) {
        lemma_same_layout(x, y);
        if let (Ok(v), Ok(w)) = (a.return_layout, b.return_layout) {
            lemma_same_layout(v, w);
            if let (Ok(p), Ok(q)) = (a.params, b.params) {
                lemma_same_list(p, q);
            }
        }
    }
}

proof fn lemma_same_funcs(a: Seq<Func>, b: Seq<Func>)
    requires
        funcs_view(a) == funcs_view(b),
    ensures
        a.len() == b.len(),
        forall|i: int| 0 <= i < a.len() ==> #[trigger] a[i]@ == b[i]@,
{
    let v = funcs_view(a);
    let w = funcs_view(b);
    assert(v.len() == w.len());
    assert forall|i: int| 0 <= i < a.len() implies #[trigger] a[i]@ == b[i]@ by {
        assert(v[i] == w[i]);
    }
}

/// The methods and the body make one module.
proof fn lemma_one_module(
    a: Module,
    b: Module,
    first: Methods,
    second: Methods,
    body: FragmentView,
    range: TokenRange,
)
    requires
        funcs_view(first.funcs@) == funcs_view(second.funcs@),
        module_of(a, first, body, range),
        module_of(b, second, body, range),
    ensures
        imports_view(a.imports@) == imports_view(b.imports@),
        funcs_view(a.funcs@) == funcs_view(b.funcs@),
        a.entry_func_index == b.entry_func_index,
        a.closure_table@ == b.closure_table@,
{
    let (e, l, i) = choose|entry: Func, lambdas: Seq<Func>, imports: Seq<NativeImport>|
        entry@ == entry_function(body, range) && filled(body.slots.closures, funcs_view(lambdas))
            && imports_view(imports) == body.slots.imports && #[trigger] assembled(
            a,
            first.funcs@,
            entry,
            lambdas,
            imports,
        );
    let (f, m, j) = choose|entry: Func, lambdas: Seq<Func>, imports: Seq<NativeImport>|
        entry@ == entry_function(body, range) && filled(body.slots.closures, funcs_view(lambdas))
            && imports_view(imports) == body.slots.imports && #[trigger] assembled(
            b,
            second.funcs@,
            entry,
            lambdas,
            imports,
        );
    assert(funcs_view(l) =~= funcs_view(m)) by {
        assert forall|k: int| 0 <= k < funcs_view(l).len() implies #[trigger] funcs_view(l)[k]
            == funcs_view(m)[k] by {
            assert(body.slots.closures[k] == Some(funcs_view(m)[k]));
        }
    }
    lemma_same_funcs(first.funcs@, second.funcs@);
    lemma_same_funcs(l, m);
    assert(funcs_view(a.funcs@) =~= funcs_view(b.funcs@));
    assert(a.closure_table@ =~= b.closure_table@);
}

/// Lowering a plan has one result.
proof fn lemma_plan_decides<B: EntryBackend>(
    backend: B,
    table: StdlibTable,
    builtins: Vec<String>,
    types: SchemaTable<'_>,
    host_fns: HostFnTables,
    plan: EntryPlan,
    range: TokenRange,
    a: Result<LoweredEntry, LoweringError>,
    b: Result<LoweredEntry, LoweringError>,
)
    requires
        told_by_contents(),
        plan_lowered(backend, table, builtins, types, host_fns, plan, range, a),
        plan_lowered(backend, table, builtins, types, host_fns, plan, range, b),
    ensures
        same_result(a, b),
{
    let x = choose|steps: EntrySteps<'_>| #[trigger]
        steps_of(backend, table, builtins, types, host_fns, plan, range, steps) && steps_lead_to(
            backend,
            table,
            builtins,
            types,
            plan,
            range,
            steps,
            a,
        );
    let y = choose|steps: EntrySteps<'_>| #[trigger]
        steps_of(backend, table, builtins, types, host_fns, plan, range, steps) && steps_lead_to(
            backend,
            table,
            builtins,
            types,
            plan,
            range,
            steps,
            b,
        );
    lemma_one_body(backend, table, builtins, types, host_fns, plan, range, x, y);
    match stepped_body(backend, table, builtins, types, plan, range, x) {
        Err(_) => {},
        Ok(body) => {
            if first_unfilled(body.slots.closures, 0) is None {
                lemma_one_module(
                    a->Ok_0.module,
                    b->Ok_0.module,
                    x.methods->Ok_0,
                    y.methods->Ok_0,
                    body,
                    range,
                );
            }
        },
    }
}

proof fn lemma_same_types<'a>(
    x: Seq<(&'a String, &'a SchemaDef)>,
    y: Seq<(&'a String, &'a SchemaDef)>,
)
    requires
        told_by_contents(),
        declared_view(x) == declared_view(y),
    ensures
        x == y,
{
    let v = declared_view(x);
    let w = declared_view(y);
    assert(v.len() == w.len());
    assert forall|i: int| 0 <= i < x.len() implies #[trigger] x[i] == y[i] by {
        assert(v[i] == w[i]);
        lemma_same_text(*x[i].0, *y[i].0);
    }
    assert(x =~= y);
}

/// Lowering a module has one result, wherever the fields that it returns do not
/// refer to one another in a circle; which circle an error then names is open.
pub proof fn law_one_result<B: EntryBackend>(
    backend: B,
    table: StdlibTable,
    builtins: Vec<String>,
    tree: AnalyzedTree,
    module: Seq<char>,
    root: Node,
    a: Result<LoweredEntry, LoweringError>,
    b: Result<LoweredEntry, LoweringError>,
)
    requires
        told_by_contents(),
        without_cycles(tree, root),
        single_lowered(backend, table, builtins, tree, module, root, a),
        single_lowered(backend, table, builtins, tree, module, root, b),
    ensures
        same_result(a, b),
{
    let x = choose|by_name: Seq<(&String, &SchemaDef)>|
        declared_view(by_name) == declarations(tree) && #[trigger] entry_lowered(
            backend,
            table,
            builtins,
            by_name,
            tree,
            module,
            root,
            a,
        );
    let y = choose|by_name: Seq<(&String, &SchemaDef)>|
        declared_view(by_name) == declarations(tree) && #[trigger] entry_lowered(
            backend,
            table,
            builtins,
            by_name,
            tree,
            module,
            root,
            b,
        );
    lemma_same_types(x, y);
    if let Some(sig) = tree.main_signature {
        let known = known_types(x, x.len());
        let (s, p) = choose|types: SchemaTable<'_>, p: Result<EntryPlan, LoweringError>|
            types.entries@ == known && #[trigger] entry_planned(backend, types, sig, root, p)
                && match p {
                Err(e) => a matches Err(got) && got@ == e@,
                Ok(plan) => plan_lowered(
                    backend,
                    table,
                    builtins,
                    types,
                    tree.host_fns,
                    plan,
                    sig.range,
                    a,
                ),
            };
        let (t, q) = choose|types: SchemaTable<'_>, p: Result<EntryPlan, LoweringError>|
            types.entries@ == known && #[trigger] entry_planned(backend, types, sig, root, p)
                && match p {
                Err(e) => b matches Err(got) && got@ == e@,
                Ok(plan) => plan_lowered(
                    backend,
                    table,
                    builtins,
                    types,
                    tree.host_fns,
                    plan,
                    sig.range,
                    b,
                ),
            };
        lemma_same_list(s.entries, t.entries);
        lemma_one_entry_plan(backend, s, tree, root, p, q);
        if let Ok(plan) = p {
            lemma_plan_decides(
                backend,
                table,
                builtins,
                s,
                tree.host_fns,
                plan,
                sig.range,
                a,
                b,
            );
        }
    }
}

/// Lowering one module alone and lowering a workspace that holds only that
/// module give equal results, wherever the fields that the module returns do
/// not refer to one another in a circle. The names of the types that the module
/// declares at its top are distinct; the workspace refuses two different types
/// of one name, which the module alone does not compare.
pub proof fn law_single_module_and_its_workspace_give_the_same<B: EntryBackend>(
    backend: B,
    table: StdlibTable,
    builtins: Vec<String>,
    ws: WorkspaceTree,
    bodies: NameTable<Node>,
    entry: Seq<char>,
    alone: Result<LoweredEntry, LoweringError>,
    whole: Result<LoweredEntry, LoweringError>,
)
    requires
        told_by_contents(),
        ws.modules.entries@.len() == 1,
        ws.modules.entries@[0].0@ == entry,
        distinct_tops(ws.modules.entries@[0].1),
        name_index(bodies.entries@, entry, 0) is Some,
        without_cycles(
            ws.modules.entries@[0].1,
            bodies.entries@[name_index(bodies.entries@, entry, 0)->0].1,
        ),
        single_lowered(
            backend,
            table,
            builtins,
            ws.modules.entries@[0].1,
            entry,
            bodies.entries@[name_index(bodies.entries@, entry, 0)->0].1,
            alone,
        ),
        workspace_lowered(backend, table, builtins, ws, bodies, entry, whole),
    ensures
        same_result(alone, whole),
{
    law_single_module_is_its_own_workspace(backend, table, builtins, ws, bodies, entry, whole);
    law_one_result(
        backend,
        table,
        builtins,
        ws.modules.entries@[0].1,
        entry,
        bodies.entries@[name_index(bodies.entries@, entry, 0)->0].1,
        alone,
        whole,
    );
}

} // verus!

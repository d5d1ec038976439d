//! Entry modules ask for nothing but their parts.

use vstd::prelude::*;

use crate::ast::{ClosureParam, Expr, Node, TokenKey, TokenRange, TypeNode};
use crate::canonical::{return_type, MainSignature, SchemaTable};
use crate::depth::{agree, alike_exprs, flat_nests, lemma_parts_nest, nests, nodes_nest, pairs_nest};
use crate::depth_records::{in_step, law_typed_value_asks_only_its_parts};
use crate::dict_body::{field_code, fields_from, source_value};
use crate::dict_plan::{
    canonical_params, first_state, param_ir_types, param_names, plan_after_order, plan_outcome,
    plan_step, plan_steps, planned_pairs, AnonDictField, AnonDictPlan, ClosurePlanner, PlanState,
    PlanView,
};
use crate::emit_order::emit_order_outcome;
use crate::entry::{
    closure_at_boundary, decorator_refused, entry_planned, main_params, open_planned, plan_has,
    return_kind, rewritten, value_schema, EntryPlan, ReturnKind, ReturnShape,
};
use crate::error::{ErrorView, LoweringError};
use crate::expr::{ExprEnv, ExprLowering};
use crate::fragment::{Scope, SlotsView};
use crate::lowering::{
    entry_body, entry_lowered, first_slots, plan_lowered, single_lowered, stepped_body,
    steps_lead_to, steps_of, workspace_lowered, EntryBackend, EntrySteps,
};
use crate::module::LoweredEntry;
use crate::names::{name_index, NameTable};
use crate::native_import::{HostFnEntry, HostFnTables};
use crate::records::{OffsetTable, RecordEnv, RecordLowering};
use crate::reference::Frame;
use crate::schedule::steps;
use crate::stdlib::StdlibTable;
use crate::types::{fields_view, Field, Schema};
use crate::workspace::{known_types, AnalyzedTree, SchemaDef, WorkspaceTree};

verus! {

/// The source of a field is one of the values.
pub proof fn lemma_source_value_nests(n: nat, pairs: Seq<(TokenKey, Node)>, name: Seq<char>)
    requires
        pairs_nest(n, pairs),
    ensures
        source_value(pairs, name) matches Some(value) ==> nests(n, *value.expr),
    decreases pairs.len(),
{
    if pairs.len() > 0 {
        assert(pairs_nest(n, pairs.drop_last())) by {
            assert forall|i: int| 0 <= i < pairs.drop_last().len() implies nests(
                n,
                *(#[trigger] pairs.drop_last()[i]).1.expr,
            ) by {
                assert(pairs[i] == pairs.drop_last()[i]);
            }
        }
        assert(pairs.last() == pairs[pairs.len() - 1]);
        lemma_source_value_nests(n, pairs.drop_last(), name);
    }
}

/// [`field_code`] asks for nothing but its parts.
pub proof fn lemma_field_code_agrees<'a, L: RecordLowering, H: RecordLowering>(
    l: RecordEnv<'_, L>,
    h: RecordEnv<'_, H>,
    n: nat,
    field: &'a AnonDictField,
    schema: Schema,
    layout: OffsetTable,
    pairs: Seq<(TokenKey, Node)>,
    record: u32,
    scope: Scope<'_>,
    at: SlotsView,
)
    requires
        in_step(l, h, n),
        pairs_nest(n, pairs),
    ensures
        field_code(l, field, schema, layout, pairs, record, scope, at) == field_code(
            h,
            field,
            schema,
            layout,
            pairs,
            record,
            scope,
            at,
        ),
{
    match *field {
        AnonDictField::Scalar { name, ty } => {
            lemma_source_value_nests(n, pairs, name@);
            if let Some(value) = source_value(pairs, name@) {
                law_typed_value_asks_only_its_parts(l, h, n, ty, value, scope, at);
            }
        },
        AnonDictField::CrossRegionParamList { name, ty } => {
            lemma_source_value_nests(n, pairs, name@);
        },
        _ => {},
    }
}

/// [`fields_from`] asks for nothing but its parts.
pub proof fn lemma_fields_from_agrees<L: RecordLowering, H: RecordLowering>(
    l: RecordEnv<'_, L>,
    h: RecordEnv<'_, H>,
    n: nat,
    plan: AnonDictPlan,
    layout: OffsetTable,
    pairs: Seq<(TokenKey, Node)>,
    record: u32,
    from: int,
    scope: Scope<'_>,
    at: SlotsView,
)
    requires
        in_step(l, h, n),
        pairs_nest(n, pairs),
    ensures
        fields_from(l, plan, layout, pairs, record, from, scope, at) == fields_from(
            h,
            plan,
            layout,
            pairs,
            record,
            from,
            scope,
            at,
        ),
    decreases plan.emit_order@.len() - from,
{
    if 0 <= from < plan.emit_order@.len() {
        let field = &plan.fields@[plan.emit_order@[from] as int];
        lemma_field_code_agrees(l, h, n, field, plan.schema, layout, pairs, record, scope, at);
        if let Ok(code) = field_code(l, field, plan.schema, layout, pairs, record, scope, at) {
            lemma_fields_from_agrees(
                l,
                h,
                n,
                plan,
                layout,
                pairs,
                record,
                from + 1,
                match code.binding {
                    Some(b) => Scope::Bind(b, &scope),
                    None => scope,
                },
                code.slots,
            );
        }
    }
}

/// The lowering of an entry body asks another one for nothing but the parts of
/// the body.
pub proof fn law_entry_body_asks_only_its_parts<L: RecordLowering, H: RecordLowering>(
    l: RecordEnv<'_, L>,
    h: RecordEnv<'_, H>,
    n: nat,
    plan: EntryPlan,
    layout: OffsetTable,
    range: TokenRange,
    at: SlotsView,
)
    requires
        in_step(l, h, n),
        nests(n, *plan.root.expr),
    ensures
        entry_body(l, plan, layout, range, at) == entry_body(h, plan, layout, range, at),
{
    let root = plan.root;
    lemma_parts_nest(n, *root.expr);
    match plan.shape {
        ReturnShape::Fields(fields) => {
            if let Expr::Dict(pairs) = *root.expr {
                lemma_fields_from_agrees(
                    l,
                    h,
                    n,
                    fields,
                    layout,
                    pairs@,
                    at.records,
                    0,
                    Scope::Empty,
                    at.after_record(),
                );
            }
        },
        ReturnShape::Value => {
            law_typed_value_asks_only_its_parts(
                l,
                h,
                n,
                plan.return_schema.fields@[0].ty,
                root,
                Scope::Empty,
                at,
            );
        },
        _ => {},
    }
}

/// The planners give closures the same signatures.
pub open spec fn planners_agree<P: ClosurePlanner, Q: ClosurePlanner>(p: P, q: Q) -> bool {
    forall|params: Seq<ClosureParam>, return_type: Option<TypeNode>, body: Expr| #[trigger]
        p.planned(params, return_type, body) == q.planned(params, return_type, body)
}

/// The backends lower all that surrounds an entry body alike, and agree on
/// expressions that nest at most `n` levels.
pub open spec fn backends_agree<B: EntryBackend, C: EntryBackend>(b: B, c: C, n: nat) -> bool {
    &&& planners_agree(b, c)
    &&& forall|schema: Schema| #[trigger] b.layout_of(schema) == c.layout_of(schema)
    &&& forall|types: SchemaTable<'_>, host_fns: NameTable<HostFnEntry>| #[trigger]
        b.methods(types, host_fns) == c.methods(types, host_fns)
    &&& forall|env: ExprEnv<'_>|
        alike_exprs(#[trigger] b.lowering_in(env), c.lowering_in(env)) && agree(
            b.lowering_in(env),
            c.lowering_in(env),
            n,
        )
}

/// [`stepped_body`] asks for nothing but the parts of the body.
pub proof fn lemma_stepped_body_agrees<'a, B: EntryBackend, C: EntryBackend>(
    b: B,
    c: C,
    n: nat,
    table: StdlibTable,
    builtins: Vec<String>,
    types: SchemaTable<'a>,
    plan: EntryPlan,
    range: TokenRange,
    steps: EntrySteps<'a>,
)
    requires
        backends_agree(b, c, n),
        nests(n, *plan.root.expr),
    ensures
        stepped_body(b, table, builtins, types, plan, range, steps) == stepped_body(
            c,
            table,
            builtins,
            types,
            plan,
            range,
            steps,
        ),
{
    if let (Ok(_), Ok(return_layout), Ok(params), Ok(methods)) = (
        steps.main_layout,
        steps.return_layout,
        steps.params,
        steps.methods,
    ) {
        let env = ExprEnv {
            frame: Frame {
                params: &params,
                self_binding: None,
                method_params: &steps.no_method,
                types: &types,
            },
            builtins: &builtins,
            table: &table,
            host_fns: &steps.natives.resolved,
        };
        let low = b.lowering_in(env);
        let other = c.lowering_in(env);
        law_entry_body_asks_only_its_parts(
            RecordEnv { low: &low, table: &table, in_scratch: false },
            RecordEnv { low: &other, table: &table, in_scratch: false },
            n,
            plan,
            return_layout,
            range,
            first_slots(methods.slots@),
        );
    }
}

/// Two backends that agree on what the planned body of an entry module nests
/// lower the module alike: what is a result of the one is a result of the other.
pub proof fn law_module_asks_only_the_parts_of_its_body<'a, B: EntryBackend, C: EntryBackend>(
    b: B,
    c: C,
    n: nat,
    table: StdlibTable,
    builtins: Vec<String>,
    types: SchemaTable<'a>,
    host_fns: HostFnTables,
    plan: EntryPlan,
    range: TokenRange,
    r: Result<LoweredEntry, LoweringError>,
)
    requires
        backends_agree(b, c, n),
        nests(n, *plan.root.expr),
    ensures
        plan_lowered(b, table, builtins, types, host_fns, plan, range, r) == plan_lowered(
            c,
            table,
            builtins,
            types,
            host_fns,
            plan,
            range,
            r,
        ),
{
    assert forall|steps: EntrySteps<'a>|
        #![trigger steps_of(b, table, builtins, types, host_fns, plan, range, steps)]
        #![trigger steps_of(c, table, builtins, types, host_fns, plan, range, steps)]
        steps_of(b, table, builtins, types, host_fns, plan, range, steps) == steps_of(
            c,
            table,
            builtins,
            types,
            host_fns,
            plan,
            range,
            steps,
        ) && steps_lead_to(b, table, builtins, types, plan, range, steps, r) == steps_lead_to(
            c,
            table,
            builtins,
            types,
            plan,
            range,
            steps,
            r,
        ) by {
        lemma_stepped_body_agrees(b, c, n, table, builtins, types, plan, range, steps);
    }
    if plan_lowered(b, table, builtins, types, host_fns, plan, range, r) {
        let steps = choose|steps: EntrySteps<'a>| #[trigger]
            steps_of(b, table, builtins, types, host_fns, plan, range, steps) && steps_lead_to(
                b,
                table,
                builtins,
                types,
                plan,
                range,
                steps,
                r,
            );
        assert(steps_of(c, table, builtins, types, host_fns, plan, range, steps));
    }
    if plan_lowered(c, table, builtins, types, host_fns, plan, range, r) {
        let steps = choose|steps: EntrySteps<'a>| #[trigger]
            steps_of(c, table, builtins, types, host_fns, plan, range, steps) && steps_lead_to(
                c,
                table,
                builtins,
                types,
                plan,
                range,
                steps,
                r,
            );
        assert(steps_of(b, table, builtins, types, host_fns, plan, range, steps));
    }
}

/// [`plan_steps`] asks for nothing but signatures.
pub proof fn lemma_plan_steps_agrees<P: ClosurePlanner, Q: ClosurePlanner>(
    p: P,
    q: Q,
    types: Seq<(String, &SchemaDef)>,
    params: Seq<Field>,
    pairs: Seq<(TokenKey, Node)>,
    range: TokenRange,
    order: Seq<int>,
    state: PlanState,
    from: int,
)
    requires
        planners_agree(p, q),
    ensures
        plan_steps(p, types, params, pairs, range, order, state, from) == plan_steps(
            q,
            types,
            params,
            pairs,
            range,
            order,
            state,
            from,
        ),
    decreases order.len() - from,
{
    if 0 <= from < order.len() {
        if let Ok(next) = plan_step(p, types, params, pairs, range, state, order[from]) {
            lemma_plan_steps_agrees(p, q, types, params, pairs, range, order, next, from + 1);
        }
    }
}

/// What the one planner makes of an entry, the other does.
pub proof fn lemma_entry_planned_carries_over<P: ClosurePlanner, Q: ClosurePlanner>(
    p: P,
    q: Q,
    types: SchemaTable<'_>,
    sig: MainSignature,
    root: Node,
    r: Result<EntryPlan, LoweringError>,
)
    requires
        planners_agree(p, q),
        entry_planned(p, types, sig, root, r),
    ensures
        entry_planned(q, types, sig, root, r),
{
    if closure_at_boundary(sig) is None && return_kind(types, sig) == Ok::<
        ReturnKind,
        ErrorView,
    >(ReturnKind::Open) && decorator_refused(root) is None {
        let body = choose|body: Node| #[trigger]
            rewritten(root, body) && open_planned(p, types, sig, body, r);
        lemma_open_planned_carries_over(p, q, types, sig, body, r);
        assert(rewritten(root, body) && open_planned(q, types, sig, body, r));
    }
}

/// What the one planner makes of an open entry, the other does.
pub proof fn lemma_open_planned_carries_over<P: ClosurePlanner, Q: ClosurePlanner>(
    p: P,
    q: Q,
    types: SchemaTable<'_>,
    sig: MainSignature,
    root: Node,
    r: Result<EntryPlan, LoweringError>,
)
    requires
        planners_agree(p, q),
        open_planned(p, types, sig, root, r),
    ensures
        open_planned(q, types, sig, root, r),
{
    let plan = choose|plan: Result<Option<PlanView>, ErrorView>|
        #[trigger] plan_outcome(p, types, sig, root, plan) && match plan {
            Err(e) => r matches Err(got) && got@ == e,
            Ok(Some(v)) => {
                &&& plan_has(r, main_params(types, sig), Ok(v.schema), root)
                &&& r matches Ok(p) ==> (p.shape matches ReturnShape::Fields(f) && f@ == v)
            },
            Ok(None) => {
                &&& plan_has(r, main_params(types, sig), value_schema(types, sig), root)
                &&& r matches Ok(p) ==> p.shape is Value
            },
        };
    assert(plan_outcome(q, types, sig, root, plan)) by {
        if let Some(pairs) = planned_pairs(sig, root) {
            let (order, params) = choose|order: Result<Seq<int>, ErrorView>, params: Seq<Field>|
                #![trigger emit_order_outcome(
                    pairs,
                    param_names(sig.params@),
                    root.range,
                    order,
                ), fields_view(params)]
                emit_order_outcome(pairs, param_names(sig.params@), root.range, order)
                    && fields_view(params) == canonical_params(types, sig.params@) && plan
                    == plan_after_order(
                    p,
                    types.entries@,
                    params,
                    sig,
                    pairs,
                    root.range,
                    order,
                );
            if let Ok(o) = order {
                lemma_plan_steps_agrees(
                    p,
                    q,
                    types.entries@,
                    params,
                    pairs,
                    root.range,
                    o,
                    first_state(param_ir_types(sig.params@), pairs.len()),
                    0,
                );
            }
            assert(emit_order_outcome(pairs, param_names(sig.params@), root.range, order));
            assert(fields_view(params) == canonical_params(types, sig.params@));
        }
    }
}

/// Agreement of lowerings goes both ways.
pub proof fn lemma_lowerings_agree_both_ways<L: ExprLowering, H: ExprLowering>(l: L, h: H, n: nat)
    requires
        alike_exprs(l, h),
        agree(l, h, n),
    ensures
        alike_exprs(h, l),
        agree(h, l, n),
{
    assert forall|m: nat, items: Seq<Node>, range: TokenRange, scope: Scope<'_>, at: SlotsView|
        #![trigger nodes_nest(m, items), h.spread(items, range, scope, at)]
        nodes_nest(m, items) implies flat_nests(m, h.spread(items, range, scope, at)) by {
        assert(l.spread(items, range, scope, at) == h.spread(items, range, scope, at));
    }
}

/// Agreement of backends goes both ways.
pub proof fn lemma_backends_agree_both_ways<B: EntryBackend, C: EntryBackend>(b: B, c: C, n: nat)
    requires
        backends_agree(b, c, n),
    ensures
        backends_agree(c, b, n),
{
    assert forall|env: ExprEnv<'_>|
        alike_exprs(#[trigger] c.lowering_in(env), b.lowering_in(env)) && agree(
            c.lowering_in(env),
            b.lowering_in(env),
            n,
        ) by {
        assert(alike_exprs(b.lowering_in(env), c.lowering_in(env)));
        lemma_lowerings_agree_both_ways(b.lowering_in(env), c.lowering_in(env), n);
    }
}

/// The body of an entry nests at most `n` levels, and so does the body in which
/// its decorators are calls.
pub open spec fn body_nests(n: nat, root: Node) -> bool {
    nests(n, *root.expr) && forall|body: Node| #[trigger]
        rewritten(root, body) ==> nests(n, *body.expr)
}

/// What the one backend makes of an entry, the other does.
pub proof fn lemma_entry_lowered_carries_over<B: EntryBackend, C: EntryBackend>(
    b: B,
    c: C,
    n: nat,
    table: StdlibTable,
    builtins: Vec<String>,
    by_name: Seq<(&String, &SchemaDef)>,
    tree: AnalyzedTree,
    module: Seq<char>,
    root: Node,
    r: Result<LoweredEntry, LoweringError>,
)
    requires
        backends_agree(b, c, n),
        body_nests(n, root),
        entry_lowered(b, table, builtins, by_name, tree, module, root, r),
    ensures
        entry_lowered(c, table, builtins, by_name, tree, module, root, r),
{
    if let Some(sig) = tree.main_signature {
        let (types, p) = choose|types: SchemaTable<'_>, p: Result<EntryPlan, LoweringError>|
            types.entries@ == known_types(by_name, by_name.len()) && #[trigger] entry_planned(
                b,
                types,
                sig,
                root,
                p,
            ) && match p {
                Err(e) => r matches Err(got) && got@ == e@,
                Ok(plan) => plan_lowered(
                    b,
                    table,
                    builtins,
                    types,
                    tree.host_fns,
                    plan,
                    sig.range,
                    r,
                ),
            };
        lemma_entry_planned_carries_over(b, c, types, sig, root, p);
        if let Ok(plan) = p {
            assert(nests(n, *plan.root.expr));
            law_module_asks_only_the_parts_of_its_body(
                b,
                c,
                n,
                table,
                builtins,
                types,
                tree.host_fns,
                plan,
                sig.range,
                r,
            );
        }
        assert(entry_planned(c, types, sig, root, p));
    }
}

/// Two backends that agree on what the body of an entry module nests lower the
/// entry alike: what is a result of the one is a result of the other.
pub proof fn law_entry_asks_only_the_parts_of_its_body<B: EntryBackend, C: EntryBackend>(
    b: B,
    c: C,
    n: nat,
    table: StdlibTable,
    builtins: Vec<String>,
    by_name: Seq<(&String, &SchemaDef)>,
    tree: AnalyzedTree,
    module: Seq<char>,
    root: Node,
    r: Result<LoweredEntry, LoweringError>,
)
    requires
        backends_agree(b, c, n),
        body_nests(n, root),
    ensures
        entry_lowered(b, table, builtins, by_name, tree, module, root, r) == entry_lowered(
            c,
            table,
            builtins,
            by_name,
            tree,
            module,
            root,
            r,
        ),
{
    lemma_backends_agree_both_ways(b, c, n);
    if entry_lowered(b, table, builtins, by_name, tree, module, root, r) {
        lemma_entry_lowered_carries_over(
            b,
            c,
            n,
            table,
            builtins,
            by_name,
            tree,
            module,
            root,
            r,
        );
    }
    if entry_lowered(c, table, builtins, by_name, tree, module, root, r) {
        lemma_entry_lowered_carries_over(
            c,
            b,
            n,
            table,
            builtins,
            by_name,
            tree,
            module,
            root,
            r,
        );
    }
}

/// Two backends that agree on what the body of a module nests lower the module
/// alike when it stands alone.
pub proof fn law_single_module_asks_only_the_parts_of_its_body<B: EntryBackend, C: EntryBackend>(
    b: B,
    c: C,
    n: nat,
    table: StdlibTable,
    builtins: Vec<String>,
    tree: AnalyzedTree,
    module: Seq<char>,
    root: Node,
    r: Result<LoweredEntry, LoweringError>,
)
    requires
        backends_agree(b, c, n),
        body_nests(n, root),
    ensures
        single_lowered(b, table, builtins, tree, module, root, r) == single_lowered(
            c,
            table,
            builtins,
            tree,
            module,
            root,
            r,
        ),
{
    assert forall|by_name: Seq<(&String, &SchemaDef)>|
        #![trigger entry_lowered(b, table, builtins, by_name, tree, module, root, r)]
        #![trigger entry_lowered(c, table, builtins, by_name, tree, module, root, r)]
        entry_lowered(b, table, builtins, by_name, tree, module, root, r) == entry_lowered(
            c,
            table,
            builtins,
            by_name,
            tree,
            module,
            root,
            r,
        ) by {
        law_entry_asks_only_the_parts_of_its_body(
            b,
            c,
            n,
            table,
            builtins,
            by_name,
            tree,
            module,
            root,
            r,
        );
    }
}

/// Two backends that agree on what the body of the entry module nests lower a
/// workspace alike.
pub proof fn law_workspace_asks_only_the_parts_of_its_body<B: EntryBackend, C: EntryBackend>(
    b: B,
    c: C,
    n: nat,
    table: StdlibTable,
    builtins: Vec<String>,
    ws: WorkspaceTree,
    bodies: NameTable<Node>,
    entry: Seq<char>,
    r: Result<LoweredEntry, LoweringError>,
)
    requires
        backends_agree(b, c, n),
        name_index(bodies.entries@, entry, 0) matches Some(i) ==> body_nests(
            n,
            bodies.entries@[i].1,
        ),
    ensures
        workspace_lowered(b, table, builtins, ws, bodies, entry, r) == workspace_lowered(
            c,
            table,
            builtins,
            ws,
            bodies,
            entry,
            r,
        ),
{
    if let (Some(t), Some(i)) = (
        name_index(ws.modules.entries@, entry, 0),
        name_index(bodies.entries@, entry, 0),
    ) {
        let tree = ws.modules.entries@[t].1;
        let root = bodies.entries@[i].1;
        assert forall|by_name: Seq<(&String, &SchemaDef)>|
            #![trigger entry_lowered(b, table, builtins, by_name, tree, entry, root, r)]
            #![trigger entry_lowered(c, table, builtins, by_name, tree, entry, root, r)]
            entry_lowered(b, table, builtins, by_name, tree, entry, root, r) == entry_lowered(
                c,
                table,
                builtins,
                by_name,
                tree,
                entry,
                root,
                r,
            ) by {
            law_entry_asks_only_the_parts_of_its_body(
                b,
                c,
                n,
                table,
                builtins,
                by_name,
                tree,
                entry,
                root,
                r,
            );
        }
    }
}

} // verus!

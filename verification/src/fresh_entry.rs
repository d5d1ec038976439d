//! The body of an entry point has slots of its own.

use vstd::prelude::*;

use crate::ast::{Expr, Node, TokenKey, TokenRange};
use crate::dict_body::{
    closure_binding, closure_code, constant_code, field_code, fields_from, link_code, source_value,
    visible_code, visible_value, FieldCodeView,
};
use crate::dict_plan::{AnonDictField, AnonDictPlan};
use crate::entry::{EntryPlan, ReturnShape};
use crate::field_types::entries_view;
use crate::fragment::{ClosureSig, Scope, SlotsView};
use crate::fresh::{fresh, fresh_since, group_owned, one_typed, op_owned, op_sets, owned, passes};
use crate::fresh_records::{freshening_records, law_typed_value_is_fresh};
use crate::ir::{texts, IrType, OpView, TaggedOpView};
use crate::lowering::entry_body;
use crate::records::{OffsetTable, RecordBody, RecordEnv, RecordLowering};
use crate::shape::{ir_type_of, no_range};
use crate::types::{Schema, TypeRepr};

verus! {

broadcast use group_owned;

/// The code of a field has slots of its own.
pub open spec fn fresh_code(at: SlotsView, code: FieldCodeView<'_>) -> bool {
    &&& passes(at, code.slots)
    &&& owned(code.ops, at, code.slots)
    &&& code.slots.lets < u32::MAX ==> one_typed(code.ops)
}

proof fn lemma_constant_is_fresh(
    name: String,
    op: OpView,
    ty: IrType,
    first: SlotsView,
    at: SlotsView,
)
    requires
        passes(first, at),
        op_owned(TaggedOpView { op, range: no_range() }, first, at),
        op is ConstDict || op is ConstListString,
    ensures
        passes(at, constant_code(name, op, ty, at).slots),
        owned(constant_code(name, op, ty, at).ops, first, constant_code(name, op, ty, at).slots),
        one_typed(constant_code(name, op, ty, at).ops),
{
    let code = constant_code(name, op, ty, at);
    assert forall|n: u32, t: IrType| !(#[trigger] op_sets(
        TaggedOpView { op, range: no_range() },
        n,
        t,
    )) by {
    }
    assert(op_owned(TaggedOpView { op, range: no_range() }, first, code.slots));
}

proof fn lemma_closure_field_is_fresh<L: RecordLowering>(
    low: L,
    name: String,
    sig: &ClosureSig,
    pairs: Seq<(TokenKey, Node)>,
    scope: Scope<'_>,
    at: SlotsView,
)
    requires
        freshening_records(low),
    ensures
        closure_code(low, name, sig, pairs, scope, at) matches Ok(c) ==> fresh_code(at, c),
{
    match closure_code(low, name, sig, pairs, scope, at) {
        Ok(c) => {
            let value = source_value(pairs, name@)->0;
            let b = closure_binding(name, at.lets, sig);
            let inner = at.after(1);
            assert(fresh(
                inner,
                low.closure_lowered(
                    value,
                    sig.params@,
                    sig.ret,
                    Scope::Bind(b, &scope),
                    inner,
                ),
            ));
        },
        Err(_) => {},
    }
}

proof fn lemma_visible_field_is_fresh<L: RecordLowering>(
    env: RecordEnv<'_, L>,
    name: String,
    ty: TypeRepr,
    schema: Schema,
    layout: OffsetTable,
    pairs: Seq<(TokenKey, Node)>,
    record: u32,
    scope: Scope<'_>,
    at: SlotsView,
)
    requires
        freshening_records(*env.low),
    ensures
        visible_code::<L>(env, name, ty, schema, layout, pairs, record, scope, at) matches Ok(c)
            ==> fresh_code(at, c),
{
    match visible_code::<L>(env, name, ty, schema, layout, pairs, record, scope, at) {
        Ok(c) => {
            let value = source_value(pairs, name@)->0;
            let irt = ir_type_of(ty)->0;
            law_typed_value_is_fresh(env, ty, value, scope, at);
            assert(fresh(at, env.low.lowered(value, scope, at)));
            assert(fresh_since(at, at, visible_value(env, name@, ty, irt, value, scope, at)->Ok_0));
        },
        Err(_) => {},
    }
}

proof fn lemma_link_field_is_fresh<L: RecordLowering>(
    low: L,
    name: Seq<char>,
    ty: TypeRepr,
    schema: Schema,
    layout: OffsetTable,
    pairs: Seq<(TokenKey, Node)>,
    record: u32,
    scope: Scope<'_>,
    at: SlotsView,
)
    requires
        freshening_records(low),
    ensures
        link_code::<L>(low, name, ty, schema, layout, pairs, record, scope, at) matches Ok(c)
            ==> fresh_code(at, c),
{
    match source_value(pairs, name) {
        Some(value) => {
            assert(fresh(at, low.lowered(value, scope, at)));
        },
        None => {},
    }
}

proof fn lemma_field_is_fresh<L: RecordLowering>(
    env: RecordEnv<'_, L>,
    field: &AnonDictField,
    schema: Schema,
    layout: OffsetTable,
    pairs: Seq<(TokenKey, Node)>,
    record: u32,
    scope: Scope<'_>,
    at: SlotsView,
)
    requires
        freshening_records(*env.low),
    ensures
        field_code(env, field, schema, layout, pairs, record, scope, at) matches Ok(c)
            ==> fresh_code(at, c),
{
    match *field {
        AnonDictField::Closure { name, sig } => {
            lemma_closure_field_is_fresh(*env.low, name, &sig, pairs, scope, at);
        },
        AnonDictField::DictStrInt { name, entries } => {
            lemma_constant_is_fresh(
                name,
                OpView::ConstDict {
                    idx: at.pool.dicts,
                    entries: entries_view(entries@),
                },
                IrType::Dict,
                at,
                at.with_pool(at.pool.after_dict()),
            );
        },
        AnonDictField::ListString { name, elements } => {
            lemma_constant_is_fresh(
                name,
                OpView::ConstListString {
                    idx: at.pool.string_lists,
                    elements: texts(elements@),
                },
                IrType::ListString,
                at,
                at.with_pool(at.pool.after_string_list()),
            );
        },
        AnonDictField::Scalar { name, ty } => {
            lemma_visible_field_is_fresh(env, name, ty, schema, layout, pairs, record, scope, at);
        },
        AnonDictField::CrossRegionParamList { name, ty } => {
            let low = *env.low;
            lemma_link_field_is_fresh(low, name@, ty, schema, layout, pairs, record, scope, at);
        },
    }
}

/// The fields of a dictionary body have slots of their own.
pub proof fn law_dict_body_is_fresh<L: RecordLowering>(
    env: RecordEnv<'_, L>,
    plan: AnonDictPlan,
    layout: OffsetTable,
    pairs: Seq<(TokenKey, Node)>,
    record: u32,
    from: int,
    scope: Scope<'_>,
    at: SlotsView,
)
    requires
        freshening_records(*env.low),
    ensures
        fresh(at, fields_from(env, plan, layout, pairs, record, from, scope, at)),
    decreases plan.emit_order@.len() - from,
{
    if 0 <= from < plan.emit_order@.len() {
        let field = &plan.fields@[plan.emit_order@[from] as int];
        lemma_field_is_fresh(env, field, plan.schema, layout, pairs, record, scope, at);
        match field_code(env, field, plan.schema, layout, pairs, record, scope, at) {
            Err(_) => {},
            Ok(code) => {
                let inner = match code.binding {
                    Some(b) => Scope::Bind(b, &scope),
                    None => scope,
                };
                law_dict_body_is_fresh(
                    env,
                    plan,
                    layout,
                    pairs,
                    record,
                    from + 1,
                    inner,
                    code.slots,
                );
            },
        }
    }
}

/// The body of an entry point sets, allocates and numbers only what is handed
/// out while it is lowered.
pub proof fn law_entry_body_is_fresh<L: RecordLowering>(
    env: RecordEnv<'_, L>,
    plan: EntryPlan,
    layout: OffsetTable,
    range: TokenRange,
    at: SlotsView,
)
    requires
        freshening_records(*env.low),
    ensures
        fresh(at, entry_body(env, plan, layout, range, at)),
{
    let root = plan.root;
    let inner = at.after_record();
    match plan.shape {
        ReturnShape::Fields(fields) => match *root.expr {
            Expr::Dict(pairs) => {
                law_dict_body_is_fresh(
                    env,
                    fields,
                    layout,
                    pairs@,
                    at.records,
                    0,
                    Scope::Empty,
                    inner,
                );
            },
            _ => {},
        },
        ReturnShape::Value => {
            let ty = plan.return_schema.fields@[0].ty;
            law_typed_value_is_fresh(env, ty, root, Scope::Empty, at);
        },
        _ => {
            assert(fresh(
                inner,
                env.low.record_body(
                    RecordBody::Declared,
                    plan.return_schema,
                    root,
                    at.records,
                    root.range,
                    Scope::Empty,
                    inner,
                ),
            ));
            assert(fresh(
                inner,
                env.low.record_body(
                    RecordBody::Tuple,
                    plan.return_schema,
                    root,
                    at.records,
                    root.range,
                    Scope::Empty,
                    inner,
                ),
            ));
        },
    }
}

} // verus!

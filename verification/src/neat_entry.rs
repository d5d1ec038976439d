//! The body of an entry point leaves the operand stack as it was.

use vstd::prelude::*;

use crate::ast::{Expr, Node, TokenKey, TokenRange};
use crate::dict_body::{
    closure_binding, closure_code, constant_code, field_code, fields_from, link_code, source_value,
    stored, visible_code, visible_value,
};
use crate::dict_plan::{AnonDictField, AnonDictPlan};
use crate::entry::{EntryPlan, ReturnShape};
use crate::error::ErrorView;
use crate::field_types::entries_view;
use crate::fragment::{let_get, let_set, ClosureSig, FragmentView, Scope, SlotsView};
use crate::ir::{sop, texts, IrType, OpView, SimpleOp, TaggedOpView};
use crate::lowering::{entry_body, record_return, returned_value, value_return};
use crate::neat_expr::leaves;
use crate::neat_records::{law_typed_value_is_neat, neat_record_lowering, neat_stores};
use crate::records::{typed_value, OffsetTable, RecordBody, RecordEnv, RecordLowering};
use crate::shape::{field_index, ir_type_of, no_range};
use crate::stack::{
    group_tally, lemma_tally_needs, neat_outcome, neat_value, op_tally, passing, settles, tally,
    Tally,
};
use crate::types::{Schema, TypeRepr};
use crate::variant::is_variant_list;

verus! {

broadcast use group_tally;

proof fn lemma_stored(
    idx: u32,
    ty: IrType,
    variant_list: bool,
    record: u32,
    offset: u32,
    range: TokenRange,
    labels: nat,
)
    ensures
        settles(tally(stored(idx, ty, variant_list, record, offset, range), labels), 1, 0),
{
    let kept = seq![let_set(idx, ty, range), let_get(idx, ty, range)];
    assert(kept =~= seq![let_set(idx, ty, range)].push(let_get(idx, ty, range)));
    assert(tally(kept, labels) == passing(1, 1));
}

proof fn lemma_constant(
    name: String,
    op: OpView,
    ty: IrType,
    at: SlotsView,
)
    requires
        op is ConstDict || op is ConstListString,
    ensures
        leaves(constant_code(name, op, ty, at).ops, 0),
{
    let range = no_range();
    let first = TaggedOpView { op, range };
    let ops = constant_code(name, op, ty, at).ops;
    assert(ops =~= seq![first].push(let_set(at.lets, ty, range)));
    assert forall|labels: nat| settles(#[trigger] tally(ops, labels), 0, 0) by {
        assert(op_tally(first, labels) == passing(0, 1));
    }
}

proof fn lemma_closure_field<L: RecordLowering>(
    low: L,
    name: String,
    sig: &ClosureSig,
    pairs: Seq<(TokenKey, Node)>,
    scope: Scope<'_>,
    at: SlotsView,
)
    requires
        neat_record_lowering(low),
    ensures
        closure_code(low, name, sig, pairs, scope, at) matches Ok(c) ==> leaves(c.ops, 0),
{
    match closure_code(low, name, sig, pairs, scope, at) {
        Ok(c) => {
            let value = source_value(pairs, name@)->0;
            let b = closure_binding(name, at.lets, sig);
            let lowered = low.closure_lowered(
                value,
                sig.params@,
                sig.ret,
                Scope::Bind(b, &scope),
                at.after(1),
            );
            assert(neat_value(lowered));
            assert forall|labels: nat| settles(#[trigger] tally(c.ops, labels), 0, 0) by {
                assert(settles(tally(lowered->Ok_0.ops, labels), 0, 1));
            }
        },
        Err(_) => {},
    }
}

proof fn lemma_visible_field<L: RecordLowering>(
    env: RecordEnv<'_, L>,
    name: String,
    ty: TypeRepr,
    schema: Schema,
    layout: OffsetTable,
    pairs: Seq<(TokenKey, Node)>,
    record: u32,
    scope: Scope<'_>,
    at: SlotsView,
)
    requires
        neat_record_lowering(*env.low),
    ensures
        visible_code::<L>(env, name, ty, schema, layout, pairs, record, scope, at) matches Ok(c)
            ==> leaves(c.ops, 0),
{
    match visible_code::<L>(env, name, ty, schema, layout, pairs, record, scope, at) {
        Ok(c) => {
            let value = source_value(pairs, name@)->0;
            let irt = ir_type_of(ty)->0;
            let f = visible_value(env, name@, ty, irt, value, scope, at)->Ok_0;
            law_typed_value_is_neat(env, ty, value, scope, at);
            assert(neat_outcome(env.low.lowered(value, scope, at)));
            assert forall|labels: nat| settles(#[trigger] tally(c.ops, labels), 0, 0) by {
                assert(settles(tally(f.ops, labels), 0, 1));
                let i = field_index(schema.fields@, name@, 0)->0;
                lemma_stored(
                    f.slots.lets,
                    irt,
                    is_variant_list(ty) && *value.expr is List,
                    record,
                    layout.fields@[i].offset,
                    value.range,
                    labels,
                );
            }
        },
        Err(_) => {},
    }
}

proof fn lemma_link_field<L: RecordLowering>(
    low: L,
    name: Seq<char>,
    ty: TypeRepr,
    schema: Schema,
    layout: OffsetTable,
    pairs: Seq<(TokenKey, Node)>,
    record: u32,
    scope: Scope<'_>,
    at: SlotsView,
)
    requires
        neat_record_lowering(low),
    ensures
        link_code::<L>(low, name, ty, schema, layout, pairs, record, scope, at) matches Ok(c)
            ==> leaves(c.ops, 0),
{
    match link_code::<L>(low, name, ty, schema, layout, pairs, record, scope, at) {
        Ok(c) => {
            let value = source_value(pairs, name)->0;
            let lowered = low.lowered(value, scope, at);
            assert(neat_outcome(lowered));
            assert forall|labels: nat| settles(#[trigger] tally(c.ops, labels), 0, 0) by {
                assert(settles(tally(lowered->Ok_0.ops, labels), 0, 1));
            }
        },
        Err(_) => {},
    }
}

proof fn lemma_field<L: RecordLowering>(
    env: RecordEnv<'_, L>,
    field: &AnonDictField,
    schema: Schema,
    layout: OffsetTable,
    pairs: Seq<(TokenKey, Node)>,
    record: u32,
    scope: Scope<'_>,
    at: SlotsView,
)
    requires
        neat_record_lowering(*env.low),
    ensures
        field_code(env, field, schema, layout, pairs, record, scope, at) matches Ok(c) ==> leaves(
            c.ops,
            0,
        ),
{
    match *field {
        AnonDictField::Closure { name, sig } => {
            lemma_closure_field(*env.low, name, &sig, pairs, scope, at);
        },
        AnonDictField::DictStrInt { name, entries } => {
            lemma_constant(
                name,
                OpView::ConstDict {
                    idx: at.pool.dicts,
                    entries: entries_view(entries@),
                },
                IrType::Dict,
                at.with_pool(at.pool.after_dict()),
            );
        },
        AnonDictField::ListString { name, elements } => {
            lemma_constant(
                name,
                OpView::ConstListString {
                    idx: at.pool.string_lists,
                    elements: texts(elements@),
                },
                IrType::ListString,
                at.with_pool(at.pool.after_string_list()),
            );
        },
        AnonDictField::Scalar { name, ty } => {
            lemma_visible_field(env, name, ty, schema, layout, pairs, record, scope, at);
        },
        AnonDictField::CrossRegionParamList { name, ty } => {
            lemma_link_field(*env.low, name@, ty, schema, layout, pairs, record, scope, at);
        },
    }
}

/// The fields of a dictionary body leave the stack as it was.
pub proof fn law_dict_body_is_neat<L: RecordLowering>(
    env: RecordEnv<'_, L>,
    plan: AnonDictPlan,
    layout: OffsetTable,
    pairs: Seq<(TokenKey, Node)>,
    record: u32,
    from: int,
    scope: Scope<'_>,
    at: SlotsView,
)
    requires
        neat_record_lowering(*env.low),
    ensures
        neat_stores(fields_from(env, plan, layout, pairs, record, from, scope, at)),
    decreases plan.emit_order@.len() - from,
{
    if 0 <= from < plan.emit_order@.len() {
        let field = &plan.fields@[plan.emit_order@[from] as int];
        lemma_field(env, field, plan.schema, layout, pairs, record, scope, at);
        match field_code(env, field, plan.schema, layout, pairs, record, scope, at) {
            Err(_) => {},
            Ok(code) => {
                let inner = match code.binding {
                    Some(b) => Scope::Bind(b, &scope),
                    None => scope,
                };
                law_dict_body_is_neat(
                    env,
                    plan,
                    layout,
                    pairs,
                    record,
                    from + 1,
                    inner,
                    code.slots,
                );
                match fields_from(env, plan, layout, pairs, record, from + 1, inner, code.slots) {
                    Err(_) => {},
                    Ok(rest) => {
                        assert forall|labels: nat| settles(
                            #[trigger] tally(code.ops + rest.ops, labels),
                            0,
                            0,
                        ) by {
                            assert(settles(tally(code.ops, labels), 0, 0));
                            assert(settles(tally(rest.ops, labels), 0, 0));
                        }
                    },
                }
            },
        }
    }
}

proof fn lemma_record_return(
    record: u32,
    stores: Result<FragmentView, ErrorView>,
    range: TokenRange,
)
    requires
        neat_stores(stores),
    ensures
        neat_stores(record_return(record, stores, range)),
{
    match stores {
        Err(_) => {},
        Ok(f) => {
            let head = seq![sop(SimpleOp::AllocRootRecord { record_local_idx: record }, range)];
            assert forall|labels: nat| settles(#[trigger] tally(head + f.ops, labels), 0, 0) by {
                assert(tally(head, labels) == passing(0, 0));
                assert(settles(tally(f.ops, labels), 0, 0));
            }
        },
    }
}

/// The body of an entry point stores what it returns and leaves the stack as
/// it was, where the lowered root of a body that returns one value leaves it.
pub proof fn law_entry_body_is_neat<L: RecordLowering>(
    env: RecordEnv<'_, L>,
    plan: EntryPlan,
    layout: OffsetTable,
    range: TokenRange,
    at: SlotsView,
)
    requires
        neat_record_lowering(*env.low),
        plan.shape is Value ==> neat_value(
            typed_value(env, plan.return_schema.fields@[0].ty, plan.root, Scope::Empty, at),
        ),
    ensures
        neat_stores(returned_value(env, plan, layout, range, Scope::Empty, at)),
        entry_body(env, plan, layout, range, at) matches Ok(f) ==> forall|labels: nat|
            #[trigger] tally(f.ops, labels) == (Tally::Gone { needs: 0 }),
{
    let root = plan.root;
    match plan.shape {
        ReturnShape::Fields(fields) => match *root.expr {
            Expr::Dict(pairs) => {
                law_dict_body_is_neat(
                    env,
                    fields,
                    layout,
                    pairs@,
                    at.records,
                    0,
                    Scope::Empty,
                    at.after_record(),
                );
                lemma_record_return(
                    at.records,
                    fields_from(
                        env,
                        fields,
                        layout,
                        pairs@,
                        at.records,
                        0,
                        Scope::Empty,
                        at.after_record(),
                    ),
                    root.range,
                );
            },
            _ => {},
        },
        ReturnShape::Value => {
            let value = typed_value(
                env,
                plan.return_schema.fields@[0].ty,
                root,
                Scope::Empty,
                at,
            );
            match value_return(env, plan, layout, range, Scope::Empty, at) {
                Err(_) => {},
                Ok(f) => {
                    assert forall|labels: nat| settles(#[trigger] tally(f.ops, labels), 0, 0) by {
                        assert(settles(tally(value->Ok_0.ops, labels), 0, 1));
                    }
                },
            }
        },
        _ => {
            let declared = env.low.record_body(
                RecordBody::Declared,
                plan.return_schema,
                root,
                at.records,
                root.range,
                Scope::Empty,
                at.after_record(),
            );
            let listed = env.low.record_body(
                RecordBody::Tuple,
                plan.return_schema,
                root,
                at.records,
                root.range,
                Scope::Empty,
                at.after_record(),
            );
            lemma_record_return(at.records, declared, root.range);
            lemma_record_return(at.records, listed, root.range);
        },
    }
    match returned_value(env, plan, layout, range, Scope::Empty, at) {
        Err(_) => {},
        Ok(f) => {
            let all = f.ops.push(sop(SimpleOp::Return, range));
            assert forall|labels: nat| #[trigger] tally(all, labels) == (Tally::Gone {
                needs: 0,
            }) by {
                assert(settles(tally(f.ops, labels), 0, 0));
                lemma_tally_needs(f.ops, labels);
            }
        },
    }
}

} // verus!

//! What literals leave, and what the entry function returns.

use vstd::prelude::*;

use crate::ast::{key_is, Expr, Node, RefBase, TokenKey, TokenRange};
use crate::dict_body::fields_from;
use crate::dict_plan::AnonDictPlan;
use crate::entry::{EntryPlan, ReturnShape};
use crate::error::ErrorView;
use crate::expr::{expr_lowered, ExprEnv, ExprLowering};
use crate::float_bits::double_bits;
use crate::fragment::{binding_read, leaf_lowered, LetBinding, ScalarConst, Scope, SlotsView};
use crate::ir::{sop, IrType, OpView, SimpleOp};
use crate::list_literal::{const_list, const_list_kind, ConstListKind};
use crate::lowering::{returned_in_place, returned_value};
use crate::meaning::{
    call_op_step, fits_32, lemma_run_concat, reads, record_op_step, run, run_from, simple_step,
    step, width_of, Flow, Machine,
};
use crate::meaning_records::lemma_single;
use crate::meaning_stores::{allocated, lemma_base_pointer, steady, tight};
use crate::records::{
    alloc_op, base_pointer, filled_record, typed_value, LayoutView, OffsetTable, RecordBody,
    RecordEnv, RecordLowering,
};
use crate::reference::reference;
use crate::shape::ir_type_of;
use crate::types::Schema;

verus! {

/// The number that a literal is, by which it stands on the stack: a truth value
/// is one or zero, and a float its bits.
pub open spec fn literal_number(expr: Expr) -> Option<int> {
    match expr {
        Expr::Bool(b) => Some(if b {
            1
        } else {
            0
        }),
        Expr::Int(v) => Some(v as int),
        Expr::Float(bits) => Some(bits as int),
        _ => None,
    }
}

/// The code of a literal leaves the literal, and nothing else changes.
pub proof fn law_literal_leaves_its_value<L: ExprLowering>(
    low: L,
    env: ExprEnv<'_>,
    expr: Expr,
    range: TokenRange,
    scope: Scope<'_>,
    at: SlotsView,
    s: Machine,
    rounds: nat,
)
    requires
        literal_number(expr) is Some,
    ensures
        expr_lowered(low, env, expr, range, scope, at) matches Ok(g) && g.slots == at && run(
            g.ops,
            s,
            rounds,
        ) == Flow::Next(s.pushed(literal_number(expr)->0)),
        ({
            let ty = expr_lowered(low, env, expr, range, scope, at)->Ok_0.ty;
            &&& expr is Bool ==> ty == Some(IrType::Bool)
            &&& expr is Int ==> ty == Some(IrType::I64)
            &&& expr is Float ==> ty == Some(IrType::F64)
        }),
{
    let t = s.pushed(literal_number(expr)->0);
    match expr {
        Expr::Bool(b) => lemma_single(SimpleOp::ConstBool(b), range, s, t, rounds),
        Expr::Int(v) => lemma_single(SimpleOp::ConstI64(v), range, s, t, rounds),
        Expr::Float(bits) => lemma_single(SimpleOp::ConstF64(bits), range, s, t, rounds),
        _ => {},
    }
}

/// The code of a string literal leaves the constant with the text of the literal.
pub proof fn law_string_leaves_its_text<L: ExprLowering>(
    low: L,
    env: ExprEnv<'_>,
    text: String,
    range: TokenRange,
    scope: Scope<'_>,
    at: SlotsView,
    s: Machine,
    rounds: nat,
)
    ensures
        ({
            let g = expr_lowered(low, env, Expr::String(text), range, scope, at)->Ok_0;
            &&& expr_lowered(low, env, Expr::String(text), range, scope, at) is Ok
            &&& g.ty == Some(IrType::String)
            &&& g.ops.len() == 1
            &&& g.ops[0].op matches OpView::ConstString { value, .. } && value == text@
            &&& run(g.ops, s, rounds) == Flow::Next(s.pushed((s.world.constant)(g.ops[0].op)))
        }),
{
    reveal(call_op_step);
    let g = expr_lowered(low, env, Expr::String(text), range, scope, at)->Ok_0;
    let t = s.pushed((s.world.constant)(g.ops[0].op));
    assert(step(g.ops[0], s, rounds) == Flow::Next(t));
    assert(run_from(g.ops, 1, t, rounds) == Flow::Next(t));
    assert(run_from(g.ops, 0, s, rounds) == Flow::Next(t));
}

/// The constant of a list of literals holds, at each position, the literal that
/// stands there; an integer among floats as the float it is.
pub proof fn law_constant_list_holds_its_literals(
    items: Seq<Node>,
    range: TokenRange,
    at: SlotsView,
    i: int,
)
    requires
        0 <= i < items.len(),
        const_list(items, range, at) is Ok,
    ensures
        ({
            let g = const_list(items, range, at)->Ok_0;
            let item = *items[i].expr;
            &&& g.ops.len() == 1
            &&& match g.ops[0].op {
                OpView::ConstListInt { elements, .. } => g.ty == Some(IrType::ListInt)
                    && elements.len() == items.len() && item == Expr::Int(elements[i]),
                OpView::ConstListFloat { elements, .. } => g.ty == Some(IrType::ListFloat)
                    && elements.len() == items.len() && match item {
                    Expr::Int(v) => elements[i] == double_bits(v),
                    other => other == Expr::Float(elements[i]),
                },
                OpView::ConstListBool { elements, .. } => g.ty == Some(IrType::ListBool)
                    && elements.len() == items.len() && item == Expr::Bool(elements[i]),
                OpView::ConstListString { elements, .. } => g.ty == Some(IrType::ListString)
                    && elements.len() == items.len() && (item matches Expr::String(text)
                    && text@ == elements[i]),
                _ => false,
            }
        }),
{
    let kind = const_list_kind(*items[0].expr)->0;
    lemma_all_admitted(kind, items, 0, i);
}

proof fn lemma_all_admitted(kind: ConstListKind, items: Seq<Node>, from: int, i: int)
    requires
        0 <= from <= i < items.len(),
        crate::list_literal::odd_element(kind, items, from) is None,
    ensures
        kind.admits(*items[i].expr),
    decreases i - from,
{
    if from < i {
        lemma_all_admitted(kind, items, from + 1, i);
    }
}

/// What is bound to the name: the literal that it stands for, or what its slot holds.
pub open spec fn bound_to(b: LetBinding<'_>, s: Machine, v: int) -> bool {
    match b.constant {
        Some(ScalarConst::I64(n)) => v == n,
        Some(ScalarConst::F64(bits)) => v == bits,
        Some(ScalarConst::Bool(yes)) => v == if yes {
            1int
        } else {
            0
        },
        None => s.lets.dom().contains(b.idx) && s.lets[b.idx] == v,
    }
}

proof fn lemma_binding_read(b: LetBinding<'_>, range: TokenRange, s: Machine, v: int, rounds: nat)
    requires
        bound_to(b, s, v),
    ensures
        ({
            let (op, _) = binding_read(b);
            run(seq![sop(op, range)], s, rounds) == Flow::Next(s.pushed(v))
        }),
{
    let (op, _) = binding_read(b);
    lemma_single(op, range, s, s.pushed(v), rounds);
}

/// A reference to a field leaves what the innermost binding of its name is bound to.
pub proof fn law_reference_leaves_what_is_bound(
    base: RefBase,
    path: Seq<TokenKey>,
    name: Seq<char>,
    range: TokenRange,
    scope: Scope<'_>,
    at: SlotsView,
    s: Machine,
    v: int,
    rounds: nat,
)
    requires
        base == RefBase::Sibling || base == RefBase::Root,
        path.len() == 1,
        key_is(path[0], name),
        scope.find(name) matches Some(b) && bound_to(b, s, v),
    ensures
        reference(base, path, range, scope, at) matches Ok(g) && g.slots == at && run(
            g.ops,
            s,
            rounds,
        ) == Flow::Next(s.pushed(v)),
{
    lemma_binding_read(scope.find(name)->0, range, s, v, rounds);
}

/// A leaf is a literal, which leaves itself, or a name, which leaves what it is bound to.
pub proof fn law_leaf_leaves_its_value(
    node: Node,
    scope: Scope<'_>,
    at: SlotsView,
    s: Machine,
    v: int,
    rounds: nat,
)
    requires
        match *node.expr {
            Expr::Variable(path) => path@.len() == 1 && (path@[0] matches TokenKey::String(
                name,
                _,
                _,
            ) && (scope.find(name@) matches Some(b) && bound_to(b, s, v))),
            other => literal_number(other) == Some(v),
        },
    ensures
        leaf_lowered(node, scope, at) matches Ok(g) && g.slots == at && run(g.ops, s, rounds)
            == Flow::Next(s.pushed(v)),
{
    match *node.expr {
        Expr::Bool(b) => lemma_single(
            SimpleOp::ConstBool(b),
            node.range,
            s,
            s.pushed(v),
            rounds,
        ),
        Expr::Int(n) => lemma_single(
            SimpleOp::ConstI64(n),
            node.range,
            s,
            s.pushed(v),
            rounds,
        ),
        Expr::Float(bits) => lemma_single(
            SimpleOp::ConstF64(bits),
            node.range,
            s,
            s.pushed(v),
            rounds,
        ),
        Expr::Variable(path) => {
            if let TokenKey::String(name, _, _) = path@[0] {
                lemma_binding_read(scope.find(name@)->0, node.range, s, v, rounds);
            }
        },
        _ => {},
    }
}

/// A record value is the address of a record of its own: as many bytes as the layout
/// says are taken, the stores of the record run with that address, and the address is
/// left.
pub proof fn law_record_value_is_the_address_of_its_record<L: RecordLowering>(
    env: RecordEnv<'_, L>,
    kind: RecordBody,
    schema: Schema,
    layout: LayoutView,
    value: Node,
    range: TokenRange,
    scope: Scope<'_>,
    at: SlotsView,
    s: Machine,
    u: Machine,
    rounds: nat,
)
    requires
        env.low.layout(schema) == Ok::<LayoutView, ErrorView>(layout),
        filled_record(env, kind, schema, value, range, scope, at) is Ok,
        fits_32(s.free),
        env.low.record_body(
            kind,
            schema,
            value,
            at.records,
            range,
            scope,
            at.after_record(),
        ) matches Ok(body) ==> run(
            body.ops,
            allocated(s, at.records, layout.root_size),
            rounds,
        ) == Flow::Next(u),
        u.stack == s.stack,
        u.locals.dom().contains(2),
        u.records.dom().contains(at.records),
        u.records[at.records] == s.free,
    ensures
        filled_record(env, kind, schema, value, range, scope, at)->Ok_0.ty == Some(IrType::I32),
        run(filled_record(env, kind, schema, value, range, scope, at)->Ok_0.ops, s, rounds)
            == Flow::Next(u.pushed(s.free)),
{
    reveal(record_op_step);
    let g = filled_record(env, kind, schema, value, range, scope, at)->Ok_0;
    let record = at.records;
    let body = env.low.record_body(
        kind,
        schema,
        value,
        record,
        range,
        scope,
        at.after_record(),
    )->Ok_0;
    let op = alloc_op(env.in_scratch, record, layout.root_size, layout.root_align);
    let first = seq![sop(op, range)];
    let pointer = base_pointer(env.in_scratch, record, range);
    let w = allocated(s, record, layout.root_size);
    assert(simple_step(op, s) == Flow::Next(w));
    lemma_single(op, range, s, w, rounds);
    assert(g.ops =~= first + (body.ops + pointer));
    lemma_run_concat(first, body.ops + pointer, 0, s, rounds);
    lemma_run_concat(body.ops, pointer, 0, w, rounds);
    lemma_base_pointer(env.in_scratch, record, range, u, rounds);
}

// ---------------------------------------------------------------------------
// The entry function.
// ---------------------------------------------------------------------------

/// An entry that returns a value leaves it in the returned record, at the offset of
/// the record's one field.
pub proof fn law_value_is_returned<L: RecordLowering>(
    env: RecordEnv<'_, L>,
    plan: EntryPlan,
    layout: OffsetTable,
    range: TokenRange,
    scope: Scope<'_>,
    at: SlotsView,
    s: Machine,
    rounds: nat,
)
    requires
        tight(s),
        s.locals.dom().contains(2),
        layout.fields@.len() > 0,
        plan.shape == ReturnShape::Value,
        returned_value(env, plan, layout, range, scope, at) is Ok,
        typed_value(
            env,
            plan.return_schema.fields@[0].ty,
            plan.root,
            scope,
            at,
        ) matches Ok(f) ==> steady(f, at, rounds),
    ensures
        ({
            let ty = plan.return_schema.fields@[0].ty;
            let f = typed_value(env, ty, plan.root, scope, at)->Ok_0;
            let g = returned_value(env, plan, layout, range, scope, at)->Ok_0;
            &&& run(f.ops, s, rounds) is Next <==> run(g.ops, s, rounds) is Next
            &&& run(f.ops, s, rounds) matches Flow::Next(u) ==> {
                &&& run(g.ops, s, rounds) matches Flow::Next(t)
                &&& t.stack == s.stack
                &&& reads(
                    t.mem,
                    s.locals[2] + layout.fields@[0].offset,
                    width_of(ir_type_of(ty)->0),
                    u.operand(0),
                )
            }
        }),
{
    reveal(record_op_step);
    let ty = plan.return_schema.fields@[0].ty;
    let ret = ir_type_of(ty)->0;
    let inplace = returned_in_place(plan.main_schema, ret, ty, *plan.root.expr);
    let f = typed_value(env, ty, plan.root, scope, at)->Ok_0;
    let g = returned_value(env, plan, layout, range, scope, at)->Ok_0;
    let store = SimpleOp::StoreField { offset: layout.fields@[0].offset, ty: ret, inplace };
    let last = seq![sop(store, range)];
    assert(g.ops =~= f.ops + last);
    lemma_run_concat(f.ops, last, 0, s, rounds);
    if let Flow::Next(u) = run(f.ops, s, rounds) {
        let t = u.popped(1).with_cell(
            s.locals[2] + layout.fields@[0].offset,
            width_of(ret),
            u.operand(0),
        );
        assert(u.popped(1).stack =~= s.stack);
        lemma_single(store, range, u, t, rounds);
    }
}

/// An entry that returns a record fills the record that its caller reserved: the
/// code of the fields runs with the address of the returned record as the address
/// of the record that it fills.
pub proof fn law_returned_record_is_the_reserved_one<L: RecordLowering>(
    env: RecordEnv<'_, L>,
    plan: EntryPlan,
    fields: AnonDictPlan,
    pairs: Vec<(TokenKey, Node)>,
    layout: OffsetTable,
    range: TokenRange,
    scope: Scope<'_>,
    at: SlotsView,
    s: Machine,
    rounds: nat,
)
    requires
        s.locals.dom().contains(2),
        plan.shape == ReturnShape::Fields(fields),
        *plan.root.expr == Expr::Dict(pairs),
        returned_value(env, plan, layout, range, scope, at) is Ok,
    ensures
        ({
            let g = returned_value(env, plan, layout, range, scope, at)->Ok_0;
            let next = at.after_record();
            let stores = fields_from(
                env,
                fields,
                layout,
                pairs@,
                at.records,
                0,
                scope,
                next,
            )->Ok_0;
            &&& at.records < u32::MAX ==> next.records > at.records
            &&& run(g.ops, s, rounds) == run(
                stores.ops,
                s.with_record(at.records, s.locals[2]),
                rounds,
            )
        }),
{
    reveal(record_op_step);
    let g = returned_value(env, plan, layout, range, scope, at)->Ok_0;
    let next = at.after_record();
    let stores = fields_from(env, fields, layout, pairs@, at.records, 0, scope, next)->Ok_0;
    let alloc = SimpleOp::AllocRootRecord { record_local_idx: at.records };
    let first = seq![sop(alloc, plan.root.range)];
    let u = s.with_record(at.records, s.locals[2]);
    lemma_single(alloc, plan.root.range, s, u, rounds);
    lemma_run_concat(first, stores.ops, 0, s, rounds);
    assert(g.ops == first + stores.ops);
}

} // verus!

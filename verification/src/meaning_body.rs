//! What the code of a returned dictionary leaves in the returned record.

use vstd::prelude::*;

use crate::ast::{key_is, Node, TokenKey, TokenRange};
use crate::dict_body::{
    closure_binding, constant_code, field_code, fields_from, link_code, source_value, stored_as,
    visible_code, visible_value, FieldCodeView,
};
use crate::dict_plan::{AnonDictField, AnonDictPlan};
use crate::error::ErrorView;
use crate::fragment::{let_get, let_set, plain_binding, FragmentView, LetBinding, Scope, SlotsView};
use crate::ir::{sop, texts, IrType, OpView, SimpleOp, TaggedOpView};
use crate::meaning::{
    call_op_step, lemma_popped, lemma_run_concat, lemma_simple, reads, record_op_step, run,
    run_from, same_below, simple_step, step, width_of, Flow, Machine, World,
};
use crate::meaning_records::{first_field, lemma_first_field, lemma_one_more, lemma_single};
use crate::meaning_stores::{
    evaluates, lemma_cell_stored, lemma_undisturbed_chain, steady, tight, undisturbed,
};
use crate::records::{typed_value, OffsetTable, RecordEnv, RecordLowering};
use crate::shape::{field_index, ir_type_of, no_range, pointer_indirect};
use crate::types::{Field, Schema, TypeRepr};
use crate::variant::is_variant_list;

verus! {

/// The value is written for the name; of several the last counts.
pub open spec fn written(pairs: Seq<(TokenKey, Node)>, name: Seq<char>, value: Node) -> bool {
    exists|j: int|
        0 <= j < pairs.len() && key_is((#[trigger] pairs[j]).0, name) && pairs[j].1 == value
            && forall|m: int| j < m < pairs.len() ==> !key_is((#[trigger] pairs[m]).0, name)
}

proof fn lemma_written(pairs: Seq<(TokenKey, Node)>, name: Seq<char>)
    ensures
        source_value(pairs, name) matches Some(value) ==> written(pairs, name, value),
    decreases pairs.len(),
{
    if pairs.len() > 0 {
        let n = pairs.len() - 1;
        if key_is(pairs[n].0, name) {
            assert(written(pairs, name, pairs[n].1));
        } else {
            let fewer = pairs.drop_last();
            lemma_written(fewer, name);
            if let Some(value) = source_value(fewer, name) {
                let j = choose|j: int|
                    0 <= j < fewer.len() && key_is((#[trigger] fewer[j]).0, name) && fewer[j].1
                        == value && forall|m: int|
                        j < m < fewer.len() ==> !key_is((#[trigger] fewer[m]).0, name);
                assert(pairs[j] == fewer[j]);
                assert forall|m: int| j < m < pairs.len() implies !key_is(
                    (#[trigger] pairs[m]).0,
                    name,
                ) by {
                    if m < n {
                        assert(pairs[m] == fewer[m]);
                    }
                }
            }
        }
    }
}

/// The name and the type of a field that the host sees.
pub open spec fn seen_by_host(field: AnonDictField) -> Option<(Seq<char>, TypeRepr)> {
    match field {
        AnonDictField::Scalar { name, ty } => Some((name@, ty)),
        AnonDictField::CrossRegionParamList { name, ty } => Some((name@, ty)),
        _ => None,
    }
}

/// Where the layout places the field of the name.
pub open spec fn place(schema: Schema, layout: OffsetTable, name: Seq<char>) -> int {
    layout.fields@[choose|i: int| first_field(schema.fields@, name, i)].offset as int
}

/// How many bytes a field of the type takes.
pub open spec fn breadth(ty: TypeRepr) -> nat {
    width_of(ir_type_of(ty)->0)
}

/// The field at a position of the order of emission.
pub open spec fn emitted(plan: AnonDictPlan, k: int) -> AnonDictField {
    plan.fields@[plan.emit_order@[k] as int]
}

/// The layout keeps the fields that the host sees apart, within the record.
pub open spec fn plan_apart(plan: AnonDictPlan, layout: OffsetTable) -> bool {
    &&& forall|k: int|
        0 <= k < plan.emit_order@.len() ==> (seen_by_host(#[trigger] emitted(plan, k)) matches Some(
            (name, ty),
        ) ==> place(plan.schema, layout, name) + breadth(ty) <= layout.root_size)
    &&& forall|k: int, m: int|
        0 <= k < plan.emit_order@.len() && 0 <= m < plan.emit_order@.len() && k != m
            && seen_by_host(#[trigger] emitted(plan, k)) is Some && seen_by_host(
            #[trigger] emitted(plan, m),
        ) is Some ==> clear_of(plan, layout, k, m)
}

/// The one field ends before the other begins.
pub open spec fn clear_of(plan: AnonDictPlan, layout: OffsetTable, k: int, m: int) -> bool {
    let (a, x) = seen_by_host(emitted(plan, k))->0;
    let (b, y) = seen_by_host(emitted(plan, m))->0;
    place(plan.schema, layout, a) + breadth(x) <= place(plan.schema, layout, b) || place(
        plan.schema,
        layout,
        b,
    ) + breadth(y) <= place(plan.schema, layout, a)
}

/// The names are bound to slots that hold the values.
pub open spec fn sees(
    known: Map<Seq<char>, int>,
    scope: Scope<'_>,
    at: SlotsView,
    u: Machine,
) -> bool {
    forall|name: Seq<char>| #[trigger]
        known.dom().contains(name) ==> (scope.find(name) matches Some(b) && b.constant is None
            && b.idx < at.lets && u.lets.dom().contains(b.idx) && u.lets[b.idx] == known[name])
}

/// Values and closures are steady where they leave something.
pub open spec fn steady_parts<L: RecordLowering>(env: RecordEnv<'_, L>, rounds: nat) -> bool {
    &&& forall|node: Node, scope: Scope<'_>, at: SlotsView|
        (#[trigger] env.low.lowered(node, scope, at)) matches Ok(f) ==> (f.ty is Some
            ==> steady(f, at, rounds))
    &&& forall|ty: TypeRepr, node: Node, scope: Scope<'_>, at: SlotsView|
        (#[trigger] typed_value(env, ty, node, scope, at)) matches Ok(f) ==> (f.ty is Some
            ==> steady(f, at, rounds))
    &&& forall|
        node: Node,
        params: Seq<IrType>,
        ret: IrType,
        scope: Scope<'_>,
        at: SlotsView,
    |
        (#[trigger] env.low.closure_lowered(node, params, ret, scope, at)) matches Ok(f) ==> (
        f.ty is Some ==> steady(f, at, rounds))
}

/// The code of values and closures comes to its end.
pub open spec fn finishing_parts<L: RecordLowering>(env: RecordEnv<'_, L>, rounds: nat) -> bool {
    &&& forall|node: Node, scope: Scope<'_>, at: SlotsView, s: Machine|
        env.low.lowered(node, scope, at) is Ok && tight(s) ==> (#[trigger] run(
            env.low.lowered(node, scope, at)->Ok_0.ops,
            s,
            rounds,
        )) is Next
    &&& forall|ty: TypeRepr, node: Node, scope: Scope<'_>, at: SlotsView, s: Machine|
        typed_value(env, ty, node, scope, at) is Ok && tight(s) ==> (#[trigger] run(
            typed_value(env, ty, node, scope, at)->Ok_0.ops,
            s,
            rounds,
        )) is Next
    &&& forall|
        node: Node,
        params: Seq<IrType>,
        ret: IrType,
        scope: Scope<'_>,
        at: SlotsView,
        s: Machine,
    |
        env.low.closure_lowered(node, params, ret, scope, at) is Ok && tight(s) ==> (#[trigger] run(
            env.low.closure_lowered(node, params, ret, scope, at)->Ok_0.ops,
            s,
            rounds,
        )) is Next
}

/// A literal list of variants is built in the shape that its type asks for;
/// every other value is lowered as it is.
pub open spec fn code_for<L: RecordLowering>(
    env: RecordEnv<'_, L>,
    field: AnonDictField,
    value: Node,
    scope: Scope<'_>,
    at: SlotsView,
) -> Result<FragmentView, ErrorView> {
    match field {
        AnonDictField::Scalar { ty, .. } => if is_variant_list(ty) && *value.expr is List {
            typed_value(env, ty, value, scope, at)
        } else {
            env.low.lowered(value, scope, at)
        },
        AnonDictField::Closure { sig, .. } => env.low.closure_lowered(
            value,
            sig.params@,
            sig.ret,
            scope,
            at,
        ),
        _ => env.low.lowered(value, scope, at),
    }
}

/// The names that the code of a field sees: a closure hides what has its name.
pub open spec fn known_to(field: AnonDictField, known: Map<Seq<char>, int>) -> Map<Seq<char>, int> {
    match field {
        AnonDictField::Closure { name, .. } => known.remove(name@),
        _ => known,
    }
}

/// The handle of a constant dictionary.
pub open spec fn dict_handle(world: World, idx: u32, entries: Seq<(String, i64)>) -> int {
    (world.constant)(
        OpView::ConstDict { idx, entries: crate::field_types::entries_view(entries) },
    )
}

/// The handle of a constant list of texts.
pub open spec fn text_list_handle(world: World, idx: u32, elements: Seq<String>) -> int {
    (world.constant)(OpView::ConstListString { idx, elements: texts(elements) })
}

/// The value `v` of a field: what the expression written for it leaves where the
/// names of the fields before it stand for their values, or the handle of the
/// constant that a hidden dictionary or list is.
pub open spec fn has_value<L: RecordLowering>(
    env: RecordEnv<'_, L>,
    field: AnonDictField,
    pairs: Seq<(TokenKey, Node)>,
    known: Map<Seq<char>, int>,
    s: Machine,
    at: SlotsView,
    lo: int,
    hi: int,
    v: int,
    rounds: nat,
) -> bool {
    match field {
        AnonDictField::DictStrInt { entries, .. } => exists|idx: u32|
            v == #[trigger] dict_handle(s.world, idx, entries@),
        AnonDictField::ListString { elements, .. } => exists|idx: u32|
            v == #[trigger] text_list_handle(s.world, idx, elements@),
        AnonDictField::Closure { name, .. } => computed(
            env,
            field,
            name@,
            pairs,
            known,
            s,
            at,
            lo,
            hi,
            v,
            rounds,
        ),
        AnonDictField::Scalar { name, .. } => computed(
            env,
            field,
            name@,
            pairs,
            known,
            s,
            at,
            lo,
            hi,
            v,
            rounds,
        ),
        AnonDictField::CrossRegionParamList { name, .. } => computed(
            env,
            field,
            name@,
            pairs,
            known,
            s,
            at,
            lo,
            hi,
            v,
            rounds,
        ),
    }
}

/// The expression written for the name leaves `v`.
pub open spec fn computed<L: RecordLowering>(
    env: RecordEnv<'_, L>,
    field: AnonDictField,
    name: Seq<char>,
    pairs: Seq<(TokenKey, Node)>,
    known: Map<Seq<char>, int>,
    s: Machine,
    at: SlotsView,
    lo: int,
    hi: int,
    v: int,
    rounds: nat,
) -> bool {
    exists|value: Node, scope: Scope<'_>, slots: SlotsView, u: Machine, t: Machine|
        #![trigger code_for(env, field, value, scope, slots), evaluates(
            code_for(env, field, value, scope, slots)->Ok_0.ops,
            s,
            at,
            lo,
            hi,
            u,
            t,
            v,
            rounds,
        )]
        written(pairs, name, value) && code_for(env, field, value, scope, slots) is Ok && sees(
            known_to(field, known),
            scope,
            slots,
            u,
        ) && evaluates(
            code_for(env, field, value, scope, slots)->Ok_0.ops,
            s,
            at,
            lo,
            hi,
            u,
            t,
            v,
            rounds,
        )
}

/// What the record holds for a value: texts and lists are copied into the
/// returned record, except for lists of variants and for the lists of
/// parameters, which are pointed at.
pub open spec fn shown(
    field: AnonDictField,
    pairs: Seq<(TokenKey, Node)>,
    world: World,
    v: int,
) -> int {
    match field {
        AnonDictField::Scalar { name, ty } => {
            let irt = ir_type_of(ty)->0;
            let inplace = is_variant_list(ty) && exists|value: Node|
                written(pairs, name@, value) && *(#[trigger] value.expr) is List;
            if !inplace && pointer_indirect(irt) {
                (world.copy)(irt, v)
            } else {
                v
            }
        },
        _ => v,
    }
}

/// Every field at and behind `from` has its value, which the fields behind it
/// know by its name, and the record holds what the host is to see of it, at the
/// place of the field.
pub open spec fn record_holds<L: RecordLowering>(
    env: RecordEnv<'_, L>,
    plan: AnonDictPlan,
    layout: OffsetTable,
    pairs: Seq<(TokenKey, Node)>,
    from: int,
    known: Map<Seq<char>, int>,
    s: Machine,
    at: SlotsView,
    base: int,
    end: Machine,
    rounds: nat,
) -> bool
    decreases plan.emit_order@.len() - from,
{
    from < 0 || from >= plan.emit_order@.len() || exists|v: int|
        {
            &&& #[trigger] has_value(
                env,
                emitted(plan, from),
                pairs,
                known,
                s,
                at,
                base,
                base + layout.root_size,
                v,
                rounds,
            )
            &&& seen_by_host(emitted(plan, from)) matches Some((name, ty)) ==> reads(
                end.mem,
                base + place(plan.schema, layout, name),
                breadth(ty),
                shown(emitted(plan, from), pairs, s.world, v),
            )
            &&& record_holds(
                env,
                plan,
                layout,
                pairs,
                from + 1,
                known_behind(emitted(plan, from), known, v),
                s,
                at,
                base,
                end,
                rounds,
            )
        }
}

/// The names known behind a field.
pub open spec fn known_behind(
    field: AnonDictField,
    known: Map<Seq<char>, int>,
    v: int,
) -> Map<Seq<char>, int> {
    match field {
        AnonDictField::CrossRegionParamList { .. } => known,
        AnonDictField::Scalar { name, .. } => known.insert(name@, v),
        AnonDictField::Closure { name, .. } => known.insert(name@, v),
        AnonDictField::DictStrInt { name, .. } => known.insert(name@, v),
        AnonDictField::ListString { name, .. } => known.insert(name@, v),
    }
}

proof fn lemma_place(schema: Schema, layout: OffsetTable, name: Seq<char>, i: int)
    requires
        field_index(schema.fields@, name, 0) == Some(i),
    ensures
        place(schema, layout, name) == layout.fields@[i].offset,
{
    lemma_found_field(schema.fields@, name, 0, i);
    let j = choose|j: int| first_field(schema.fields@, name, j);
    lemma_first_field(schema.fields@, name, j, 0);
}

proof fn lemma_found_field(fields: Seq<Field>, name: Seq<char>, from: int, i: int)
    requires
        field_index(fields, name, from) == Some(i),
        0 <= from,
        forall|j: int| 0 <= j < from ==> (#[trigger] fields[j]).name@ != name,
    ensures
        first_field(fields, name, i),
    decreases fields.len() - from,
{
    if from < fields.len() && fields[from].name@ != name {
        lemma_found_field(fields, name, from + 1, i);
    }
}

proof fn lemma_one_written(pairs: Seq<(TokenKey, Node)>, name: Seq<char>, a: Node, b: Node)
    requires
        written(pairs, name, a),
        written(pairs, name, b),
    ensures
        a == b,
{
    let i = choose|j: int|
        0 <= j < pairs.len() && key_is((#[trigger] pairs[j]).0, name) && pairs[j].1 == a
            && forall|m: int| j < m < pairs.len() ==> !key_is((#[trigger] pairs[m]).0, name);
    let k = choose|j: int|
        0 <= j < pairs.len() && key_is((#[trigger] pairs[j]).0, name) && pairs[j].1 == b
            && forall|m: int| j < m < pairs.len() ==> !key_is((#[trigger] pairs[m]).0, name);
    if i < k {
        assert(!key_is(pairs[k].0, name));
    } else if k < i {
        assert(!key_is(pairs[i].0, name));
    }
}

/// The state before a field of a record that is being filled.
spec fn between_fields<L: RecordLowering>(
    env: RecordEnv<'_, L>,
    layout: OffsetTable,
    record: u32,
    scope: Scope<'_>,
    known: Map<Seq<char>, int>,
    first: Machine,
    start: SlotsView,
    base: int,
    at: SlotsView,
    s: Machine,
    rounds: nat,
) -> bool {
    &&& steady_parts(env, rounds)
    &&& tight(s)
    &&& undisturbed(first, s, start, base, base + layout.root_size)
    &&& start.lets <= at.lets
    &&& start.records <= at.records
    &&& record < start.records
    &&& first.records.dom().contains(record)
    &&& first.records[record] == base
    &&& base + layout.root_size <= first.free
    &&& sees(known, scope, at, s)
}

/// The scope behind a field.
spec fn scope_behind<'a>(code: FieldCodeView<'a>, scope: Scope<'a>) -> Scope<'a> {
    match code.binding {
        Some(b) => Scope::Bind(b, &scope),
        None => scope,
    }
}

/// What one field does: it has its value, the record holds it, and the names
/// behind it stand for their values.
spec fn field_done<'a, L: RecordLowering>(
    env: RecordEnv<'_, L>,
    field: AnonDictField,
    schema: Schema,
    layout: OffsetTable,
    pairs: Seq<(TokenKey, Node)>,
    scope: Scope<'a>,
    known: Map<Seq<char>, int>,
    first: Machine,
    start: SlotsView,
    base: int,
    code: FieldCodeView<'a>,
    s: Machine,
    t: Machine,
    v: int,
    rounds: nat,
) -> bool {
    &&& has_value(
        env,
        field,
        pairs,
        known,
        first,
        start,
        base,
        base + layout.root_size,
        v,
        rounds,
    )
    &&& t.stack == s.stack
    &&& tight(t)
    &&& undisturbed(first, t, start, base, base + layout.root_size)
    &&& sees(known_behind(field, known, v), scope_behind(code, scope), code.slots, t)
    &&& seen_by_host(field) matches Some((name, ty)) ==> reads(
        t.mem,
        base + place(schema, layout, name),
        breadth(ty),
        shown(field, pairs, first.world, v),
    )
    &&& forall|a: int| #[trigger]
        s.mem.dom().contains(a) && (seen_by_host(field) matches Some((name, ty)) ==> a
            + s.mem[a].width <= base + place(schema, layout, name) || base + place(
            schema,
            layout,
            name,
        ) + breadth(ty) <= a) ==> t.mem.dom().contains(a) && t.mem[a] == s.mem[a]
}

/// The names that were known are still known where only slots of its own were
/// set, and so is one more.
proof fn lemma_sees_more(
    known: Map<Seq<char>, int>,
    scope: Scope<'_>,
    at: SlotsView,
    s: Machine,
    b: LetBinding<'_>,
    later: SlotsView,
    t: Machine,
    v: int,
)
    requires
        sees(known, scope, at, s),
        same_below(s, t, at.lets as int),
        at.lets <= later.lets,
        b.constant is None,
        b.idx < later.lets,
        t.lets.dom().contains(b.idx),
        t.lets[b.idx] == v,
    ensures
        sees(known.insert(b.name@, v), Scope::Bind(b, &scope), later, t),
        sees(known, scope, later, t),
{
    let more = known.insert(b.name@, v);
    let inner = Scope::Bind(b, &scope);
    assert forall|name: Seq<char>| #[trigger] known.dom().contains(name) implies (scope.find(
        name,
    ) matches Some(c) && c.constant is None && c.idx < later.lets && t.lets.dom().contains(c.idx)
        && t.lets[c.idx] == known[name]) by {
        let c = scope.find(name)->0;
        assert(s.lets.dom().contains(c.idx) == t.lets.dom().contains(c.idx));
    }
    assert forall|name: Seq<char>| #[trigger] more.dom().contains(name) implies (inner.find(
        name,
    ) matches Some(c) && c.constant is None && c.idx < later.lets && t.lets.dom().contains(c.idx)
        && t.lets[c.idx] == more[name]) by {
        if name != b.name@ {
            assert(known.dom().contains(name));
        }
    }
}

proof fn lemma_sees_still(
    known: Map<Seq<char>, int>,
    scope: Scope<'_>,
    at: SlotsView,
    s: Machine,
    later: SlotsView,
    t: Machine,
)
    requires
        sees(known, scope, at, s),
        same_below(s, t, at.lets as int),
        at.lets <= later.lets,
    ensures
        sees(known, scope, later, t),
{
    assert forall|name: Seq<char>| #[trigger] known.dom().contains(name) implies (scope.find(
        name,
    ) matches Some(c) && c.constant is None && c.idx < later.lets && t.lets.dom().contains(c.idx)
        && t.lets[c.idx] == known[name]) by {
        let c = scope.find(name)->0;
        assert(s.lets.dom().contains(c.idx) == t.lets.dom().contains(c.idx));
    }
}

/// A let slot of its own disturbs nothing.
proof fn lemma_own_slot(
    first: Machine,
    t: Machine,
    start: SlotsView,
    lo: int,
    hi: int,
    slot: u32,
    v: int,
)
    requires
        undisturbed(first, t, start, lo, hi),
        start.lets <= slot,
        tight(t),
    ensures
        undisturbed(first, t.with_let(slot, v), start, lo, hi),
        tight(t.with_let(slot, v)),
{
    let u = t.with_let(slot, v);
    assert forall|k: u32| k < start.lets implies (#[trigger] first.lets.dom().contains(k)
        == u.lets.dom().contains(k) && first.lets[k] == u.lets[k]) by {
        assert(first.lets.dom().contains(k) == t.lets.dom().contains(k));
    }
    assert forall|r: u32| r < start.records implies (#[trigger] first.records.dom().contains(r)
        == u.records.dom().contains(r) && first.records[r] == u.records[r]) by {
        assert(first.records.dom().contains(r) == t.records.dom().contains(r));
    }
    assert forall|a: int| #[trigger]
        first.mem.dom().contains(a) && (a + first.mem[a].width <= lo || hi
            <= a) implies u.mem.dom().contains(a) && u.mem[a] == first.mem[a] by {
        assert(t.mem.dom().contains(a));
    }
}

/// The code of a value, run between two fields.
proof fn lemma_value_between<L: RecordLowering>(
    env: RecordEnv<'_, L>,
    layout: OffsetTable,
    record: u32,
    scope: Scope<'_>,
    known: Map<Seq<char>, int>,
    first: Machine,
    start: SlotsView,
    base: int,
    at: SlotsView,
    f: FragmentView,
    s: Machine,
    rounds: nat,
)
    requires
        between_fields(
            env,
            layout,
            record,
            scope,
            known,
            first,
            start,
            base,
            at,
            s,
            rounds,
        ),
        steady(f, at, rounds),
    ensures
        run(f.ops, s, rounds) matches Flow::Next(t) ==> {
            &&& tight(t)
            &&& tight(t.popped(1))
            &&& undisturbed(first, t, start, base, base + layout.root_size)
            &&& undisturbed(first, t.popped(1), start, base, base + layout.root_size)
            &&& evaluates(
                f.ops,
                first,
                start,
                base,
                base + layout.root_size,
                s,
                t,
                t.operand(0),
                rounds,
            )
            &&& t.popped(1).stack == s.stack
            &&& t.stack.len() > 0
            &&& same_below(s, t, at.lets as int)
            &&& t.records.dom().contains(record)
            &&& t.records[record] == base
            &&& forall|a: int| #[trigger]
                s.mem.dom().contains(a) ==> t.mem.dom().contains(a) && t.mem[a] == s.mem[a]
        },
{
    if let Flow::Next(t) = run(f.ops, s, rounds) {
        lemma_undisturbed_chain(
            first,
            s,
            t,
            start,
            at,
            base,
            base + layout.root_size,
        );
        assert(t.popped(1).stack =~= s.stack);
        assert(first.records.dom().contains(record) == t.records.dom().contains(record));
    }
}

/// A value is kept in its slot, and stored in the record.
proof fn lemma_kept_and_stored(
    idx: u32,
    irt: IrType,
    listed: bool,
    record: u32,
    offset: u32,
    r: TokenRange,
    t: Machine,
    rounds: nat,
)
    requires
        t.stack.len() > 0,
        t.records.dom().contains(record),
    ensures
        run(crate::dict_body::stored(idx, irt, listed, record, offset, r), t, rounds) == Flow::Next(
            t.popped(1).with_let(idx, t.operand(0)).with_cell(
                t.records[record] + offset,
                width_of(irt),
                if !listed && pointer_indirect(irt) {
                    (t.world.copy)(irt, t.operand(0))
                } else {
                    t.operand(0)
                },
            ),
        ),
{
    reveal(record_op_step);
    let v = t.operand(0);
    let bare = t.popped(1).with_let(idx, v);
    let copied = !listed && pointer_indirect(irt);
    let shows = if copied {
        (t.world.copy)(irt, v)
    } else {
        v
    };
    let set = SimpleOp::LetSet { idx, ty: irt };
    let get = SimpleOp::LetGet { idx, ty: irt };
    let emit = SimpleOp::EmitTailRecordFromAbsoluteAddr { ty: irt };
    let store = SimpleOp::StoreFieldAtRecord {
        record_local_idx: record,
        offset,
        ty: stored_as(irt, listed),
    };
    let end = bare.with_cell(t.records[record] + offset, width_of(irt), shows);
    lemma_single(set, r, t, bare, rounds);
    let one = seq![sop(set, r)];
    lemma_one_more(one, get, r, t, bare, bare.pushed(v), rounds);
    let two = one.push(sop(get, r));
    lemma_popped(bare, v, 0);
    lemma_popped(bare, shows, 0);
    let three = if copied {
        two.push(sop(emit, r))
    } else {
        two
    };
    if copied {
        assert(simple_step(emit, bare.pushed(v)) == Flow::Next(bare.pushed(shows)));
        lemma_one_more(two, emit, r, t, bare.pushed(v), bare.pushed(shows), rounds);
    }
    assert(width_of(stored_as(irt, listed)) == width_of(irt));
    assert(simple_step(store, bare.pushed(shows)) == Flow::Next(end));
    lemma_one_more(three, store, r, t, bare.pushed(shows), end, rounds);
    assert(two =~= seq![let_set(idx, irt, r), let_get(idx, irt, r)]);
    assert(crate::dict_body::stored(idx, irt, listed, record, offset, r) =~= three.push(
        sop(store, r),
    ));
}

proof fn lemma_finishes<L: RecordLowering>(
    env: RecordEnv<'_, L>,
    field: AnonDictField,
    value: Node,
    scope: Scope<'_>,
    at: SlotsView,
    s: Machine,
    rounds: nat,
)
    requires
        finishing_parts(env, rounds),
        code_for(env, field, value, scope, at) is Ok,
        tight(s),
    ensures
        run(code_for(env, field, value, scope, at)->Ok_0.ops, s, rounds) is Next,
{
    match field {
        AnonDictField::Scalar { ty, .. } => if is_variant_list(ty) && *value.expr is List {
            assert(run(typed_value(env, ty, value, scope, at)->Ok_0.ops, s, rounds) is Next);
        } else {
            assert(run(env.low.lowered(value, scope, at)->Ok_0.ops, s, rounds) is Next);
        },
        AnonDictField::Closure { sig, .. } => {
            assert(run(
                env.low.closure_lowered(value, sig.params@, sig.ret, scope, at)->Ok_0.ops,
                s,
                rounds,
            ) is Next);
        },
        _ => {
            assert(run(env.low.lowered(value, scope, at)->Ok_0.ops, s, rounds) is Next);
        },
    }
}

/// What the code of the expression for the name leaves.
spec fn left_by<L: RecordLowering>(
    env: RecordEnv<'_, L>,
    field: AnonDictField,
    name: Seq<char>,
    pairs: Seq<(TokenKey, Node)>,
    scope: Scope<'_>,
    at: SlotsView,
    s: Machine,
    rounds: nat,
) -> int {
    run(
        code_for(env, field, source_value(pairs, name)->0, scope, at)->Ok_0.ops,
        s,
        rounds,
    )->Next_0.operand(0)
}

#[verifier::rlimit(40)]
proof fn lemma_visible_field<'a, L: RecordLowering>(
    env: RecordEnv<'_, L>,
    field: AnonDictField,
    schema: Schema,
    layout: OffsetTable,
    pairs: Seq<(TokenKey, Node)>,
    record: u32,
    scope: Scope<'a>,
    known: Map<Seq<char>, int>,
    first: Machine,
    start: SlotsView,
    base: int,
    at: SlotsView,
    s: Machine,
    rounds: nat,
) -> (v: int)
    requires
        field is Scalar,
        between_fields(
            env,
            layout,
            record,
            scope,
            known,
            first,
            start,
            base,
            at,
            s,
            rounds,
        ),
        0 <= place(schema, layout, field->Scalar_name@),
        place(schema, layout, field->Scalar_name@) + breadth(field->Scalar_ty) <= layout.root_size,
    ensures
        visible_code(
            env,
            field->Scalar_name,
            field->Scalar_ty,
            schema,
            layout,
            pairs,
            record,
            scope,
            at,
        ) matches Ok(code) ==> {
            &&& at.lets <= code.slots.lets
            &&& at.records <= code.slots.records
            &&& finishing_parts(env, rounds) ==> run(code.ops, s, rounds) is Next
            &&& code.slots.lets < u32::MAX ==> (run(code.ops, s, rounds) matches Flow::Next(t)
                ==> field_done(
                    env,
                    field,
                    schema,
                    layout,
                    pairs,
                    scope,
                    known,
                    first,
                    start,
                    base,
                    code,
                    s,
                    t,
                    v,
                    rounds,
                ))
        },
{
    let name = field->Scalar_name;
    let ty = field->Scalar_ty;
    let v = left_by(env, field, name@, pairs, scope, at, s, rounds);
    if let Ok(code) = visible_code(
        env,
        name,
        ty,
        schema,
        layout,
        pairs,
        record,
        scope,
        at,
    ) {
        let value = source_value(pairs, name@)->0;
        let irt = ir_type_of(ty)->0;
        let listed = is_variant_list(ty) && *value.expr is List;
        let f = visible_value(env, name@, ty, irt, value, scope, at)->Ok_0;
        let i = field_index(schema.fields@, name@, 0)->0;
        let offset = layout.fields@[i].offset;
        let idx = f.slots.lets;
        lemma_place(schema, layout, name@, i);
        lemma_written(pairs, name@);
        assert(code_for(env, field, value, scope, at) == Ok::<FragmentView, ErrorView>(f));
        assert(f.ty is Some);
        assert(steady(f, at, rounds));
        if finishing_parts(env, rounds) {
            lemma_finishes(env, field, value, scope, at, s, rounds);
        }
        let tail = crate::dict_body::stored(idx, irt, listed, record, offset, value.range);
        assert(code.ops == f.ops + tail);
        lemma_run_concat(f.ops, tail, 0, s, rounds);
        lemma_value_between(
            env,
            layout,
            record,
            scope,
            known,
            first,
            start,
            base,
            at,
            f,
            s,
            rounds,
        );
        if let Flow::Next(t) = run(f.ops, s, rounds) {
            assert(v == t.operand(0));
            let bare = t.popped(1).with_let(idx, v);
            let hi = base + layout.root_size;
            lemma_own_slot(first, t.popped(1), start, base, hi, idx, v);
            let shows = if !listed && pointer_indirect(irt) {
                (first.world.copy)(irt, v)
            } else {
                v
            };
            let w = width_of(irt);
            let end = bare.with_cell(base + offset, w, shows);
            lemma_kept_and_stored(idx, irt, listed, record, offset, value.range, t, rounds);
            assert(run(code.ops, s, rounds) == Flow::Next(end));
            lemma_cell_stored(first, bare, start, base, hi, base + offset, w, shows);
            if code.slots.lets < u32::MAX {
                let b = plain_binding(name, idx, irt);
                assert(same_below(s, end, at.lets as int)) by {
                    assert forall|slot: u32| slot < at.lets implies (
                    #[trigger] s.lets.dom().contains(slot) == end.lets.dom().contains(slot)
                        && s.lets[slot] == end.lets[slot]) by {
                        assert(s.lets.dom().contains(slot) == t.lets.dom().contains(slot));
                    }
                }
                lemma_sees_more(known, scope, at, s, b, code.slots, end, v);
                assert(sees(known_to(field, known), scope, at, s));
                assert(computed(
                    env,
                    field,
                    name@,
                    pairs,
                    known,
                    first,
                    start,
                    base,
                    hi,
                    v,
                    rounds,
                ));
                assert(shown(field, pairs, first.world, v) == shows) by {
                    if is_variant_list(ty) && exists|x: Node|
                        written(pairs, name@, x) && *(#[trigger] x.expr) is List {
                        let x = choose|x: Node|
                            written(pairs, name@, x) && *(#[trigger] x.expr) is List;
                        lemma_one_written(pairs, name@, x, value);
                    }
                    if listed {
                        assert(*value.expr is List);
                    }
                }
                assert(field_done(
                    env,
                    field,
                    schema,
                    layout,
                    pairs,
                    scope,
                    known,
                    first,
                    start,
                    base,
                    code,
                    s,
                    end,
                    v,
                    rounds,
                ));
            }
        }
    }
    v
}

proof fn lemma_link_field<'a, L: RecordLowering>(
    env: RecordEnv<'_, L>,
    field: AnonDictField,
    schema: Schema,
    layout: OffsetTable,
    pairs: Seq<(TokenKey, Node)>,
    record: u32,
    scope: Scope<'a>,
    known: Map<Seq<char>, int>,
    first: Machine,
    start: SlotsView,
    base: int,
    at: SlotsView,
    s: Machine,
    rounds: nat,
) -> (v: int)
    requires
        field is CrossRegionParamList,
        between_fields(
            env,
            layout,
            record,
            scope,
            known,
            first,
            start,
            base,
            at,
            s,
            rounds,
        ),
        0 <= place(schema, layout, field->CrossRegionParamList_name@),
        place(schema, layout, field->CrossRegionParamList_name@) + breadth(
            field->CrossRegionParamList_ty,
        ) <= layout.root_size,
    ensures
        link_code::<L>(
            *env.low,
            field->CrossRegionParamList_name@,
            field->CrossRegionParamList_ty,
            schema,
            layout,
            pairs,
            record,
            scope,
            at,
        ) matches Ok(code) ==> {
            &&& at.lets <= code.slots.lets
            &&& at.records <= code.slots.records
            &&& finishing_parts(env, rounds) ==> run(code.ops, s, rounds) is Next
            &&& run(code.ops, s, rounds) matches Flow::Next(t) ==> field_done(
                env,
                field,
                schema,
                layout,
                pairs,
                scope,
                known,
                first,
                start,
                base,
                code,
                s,
                t,
                v,
                rounds,
            )
        },
{
    reveal(record_op_step);
    let name = field->CrossRegionParamList_name@;
    let ty = field->CrossRegionParamList_ty;
    let v = left_by(env, field, name, pairs, scope, at, s, rounds);
    if let Ok(code) = link_code::<L>(
        *env.low,
        name,
        ty,
        schema,
        layout,
        pairs,
        record,
        scope,
        at,
    ) {
        let value = source_value(pairs, name)->0;
        let irt = ir_type_of(ty)->0;
        let f = env.low.lowered(value, scope, at)->Ok_0;
        let i = field_index(schema.fields@, name, 0)->0;
        let offset = layout.fields@[i].offset;
        lemma_place(schema, layout, name, i);
        lemma_written(pairs, name);
        assert(code_for(env, field, value, scope, at) == Ok::<FragmentView, ErrorView>(f));
        assert(steady(f, at, rounds));
        if finishing_parts(env, rounds) {
            lemma_finishes(env, field, value, scope, at, s, rounds);
        }
        let store = SimpleOp::StoreFieldAtRecord { record_local_idx: record, offset, ty: irt };
        let tail = seq![sop(store, value.range)];
        assert(code.ops =~= f.ops + tail);
        lemma_run_concat(f.ops, tail, 0, s, rounds);
        lemma_value_between(
            env,
            layout,
            record,
            scope,
            known,
            first,
            start,
            base,
            at,
            f,
            s,
            rounds,
        );
        if let Flow::Next(t) = run(f.ops, s, rounds) {
            assert(v == t.operand(0));
            let bare = t.popped(1);
            let hi = base + layout.root_size;
            let w = width_of(irt);
            let end = bare.with_cell(base + offset, w, v);
            assert(simple_step(store, t) == Flow::Next(end));
            lemma_single(store, value.range, t, end, rounds);
            assert(run(code.ops, s, rounds) == Flow::Next(end));
            lemma_cell_stored(first, bare, start, base, hi, base + offset, w, v);
            assert(same_below(s, end, at.lets as int)) by {
                assert forall|slot: u32| slot < at.lets implies (
                #[trigger] s.lets.dom().contains(slot) == end.lets.dom().contains(slot)
                    && s.lets[slot] == end.lets[slot]) by {
                    assert(s.lets.dom().contains(slot) == t.lets.dom().contains(slot));
                }
            }
            lemma_sees_still(known, scope, at, s, code.slots, end);
            assert(sees(known_to(field, known), scope, at, s));
            assert(computed(env, field, name, pairs, known, first, start, base, hi, v, rounds));
        }
    }
    v
}

proof fn lemma_closure_field<'a, L: RecordLowering>(
    env: RecordEnv<'_, L>,
    field: &'a AnonDictField,
    schema: Schema,
    layout: OffsetTable,
    pairs: Seq<(TokenKey, Node)>,
    record: u32,
    scope: Scope<'a>,
    known: Map<Seq<char>, int>,
    first: Machine,
    start: SlotsView,
    base: int,
    at: SlotsView,
    s: Machine,
    rounds: nat,
) -> (v: int)
    requires
        *field is Closure,
        at.lets < u32::MAX,
        between_fields(
            env,
            layout,
            record,
            scope,
            known,
            first,
            start,
            base,
            at,
            s,
            rounds,
        ),
    ensures
        field_code(env, field, schema, layout, pairs, record, scope, at) matches Ok(code) ==> {
            &&& at.lets <= code.slots.lets
            &&& at.records <= code.slots.records
            &&& finishing_parts(env, rounds) ==> run(code.ops, s, rounds) is Next
            &&& run(code.ops, s, rounds) matches Flow::Next(t) ==> field_done(
                env,
                *field,
                schema,
                layout,
                pairs,
                scope,
                known,
                first,
                start,
                base,
                code,
                s,
                t,
                v,
                rounds,
            )
        },
{
    let name = field->Closure_name;
    let sig = &field->Closure_sig;
    let b = closure_binding(name, at.lets, sig);
    let inner = Scope::Bind(b, &scope);
    let v = left_by(env, *field, name@, pairs, inner, at.after(1), s, rounds);
    if let Ok(code) = field_code(env, field, schema, layout, pairs, record, scope, at) {
        let value = source_value(pairs, name@)->0;
        let f = env.low.closure_lowered(value, sig.params@, sig.ret, inner, at.after(1))->Ok_0;
        lemma_written(pairs, name@);
        assert(code_for(env, *field, value, inner, at.after(1)) == Ok::<FragmentView, ErrorView>(
            f,
        ));
        assert(steady(f, at.after(1), rounds));
        if finishing_parts(env, rounds) {
            lemma_finishes(env, *field, value, inner, at.after(1), s, rounds);
        }
        let set = SimpleOp::LetSet { idx: at.lets, ty: IrType::Closure };
        let tail = seq![sop(set, value.range)];
        assert(code.ops =~= f.ops + tail);
        lemma_run_concat(f.ops, tail, 0, s, rounds);
        let less = known.remove(name@);
        assert forall|n: Seq<char>| #[trigger] less.dom().contains(n) implies (inner.find(
            n,
        ) matches Some(c) && c.constant is None && c.idx < at.after(1).lets
            && s.lets.dom().contains(c.idx) && s.lets[c.idx] == less[n]) by {
            assert(known.dom().contains(n));
        }
        lemma_value_between(
            env,
            layout,
            record,
            inner,
            less,
            first,
            start,
            base,
            at.after(1),
            f,
            s,
            rounds,
        );
        if let Flow::Next(t) = run(f.ops, s, rounds) {
            assert(v == t.operand(0));
            let hi = base + layout.root_size;
            let end = t.popped(1).with_let(at.lets, v);
            lemma_single(set, value.range, t, end, rounds);
            assert(run(code.ops, s, rounds) == Flow::Next(end));
            lemma_own_slot(first, t.popped(1), start, base, hi, at.lets, v);
            assert(same_below(s, end, at.lets as int)) by {
                assert forall|slot: u32| slot < at.lets implies (
                #[trigger] s.lets.dom().contains(slot) == end.lets.dom().contains(slot)
                    && s.lets[slot] == end.lets[slot]) by {
                    assert(s.lets.dom().contains(slot) == t.lets.dom().contains(slot));
                }
            }
            lemma_sees_more(known, scope, at, s, b, code.slots, end, v);
            assert(sees(known_to(*field, known), inner, at.after(1), s));
            assert(computed(
                env,
                *field,
                name@,
                pairs,
                known,
                first,
                start,
                base,
                hi,
                v,
                rounds,
            ));
        }
    }
    v
}

/// A constant in a slot of its own.
proof fn lemma_constant_field<'a>(
    name: String,
    op: OpView,
    ty: IrType,
    layout: OffsetTable,
    scope: Scope<'a>,
    known: Map<Seq<char>, int>,
    first: Machine,
    start: SlotsView,
    base: int,
    at: SlotsView,
    s: Machine,
    rounds: nat,
)
    requires
        op is ConstDict || op is ConstListString,
        tight(s),
        undisturbed(first, s, start, base, base + layout.root_size),
        start.lets <= at.lets,
        at.lets < u32::MAX,
        sees(known, scope, at, s),
    ensures
        ({
            let code = constant_code::<'a>(name, op, ty, at);
            let v = (first.world.constant)(op);
            let t = s.with_let(at.lets, v);
            &&& run(code.ops, s, rounds) == Flow::Next(t)
            &&& tight(t)
            &&& undisturbed(first, t, start, base, base + layout.root_size)
            &&& sees(known.insert(name@, v), scope_behind(code, scope), code.slots, t)
        }),
{
    reveal(call_op_step);
    let code = constant_code::<'a>(name, op, ty, at);
    let v = (first.world.constant)(op);
    let t = s.with_let(at.lets, v);
    let one = TaggedOpView { op, range: no_range() };
    let set = SimpleOp::LetSet { idx: at.lets, ty };
    assert(code.ops[0] == one);
    assert(step(one, s, rounds) == Flow::Next(s.pushed(v)));
    assert(run_from(code.ops, 0, s, rounds) == run_from(code.ops, 1, s.pushed(v), rounds));
    lemma_popped(s, v, 0);
    lemma_simple(code.ops, 1, set, s.pushed(v), rounds);
    assert(run_from(code.ops, 2, t, rounds) == Flow::Next(t));
    lemma_own_slot(first, s, start, base, base + layout.root_size, at.lets, v);
    assert(same_below(s, t, at.lets as int));
    lemma_sees_more(
        known,
        scope,
        at,
        s,
        plain_binding(name, at.lets, ty),
        code.slots,
        t,
        v,
    );
}

/// One field, from the state between two fields.
proof fn lemma_field<'a, L: RecordLowering>(
    env: RecordEnv<'_, L>,
    field: &'a AnonDictField,
    schema: Schema,
    layout: OffsetTable,
    pairs: Seq<(TokenKey, Node)>,
    record: u32,
    scope: Scope<'a>,
    known: Map<Seq<char>, int>,
    first: Machine,
    start: SlotsView,
    base: int,
    at: SlotsView,
    s: Machine,
    rounds: nat,
) -> (v: int)
    requires
        between_fields(
            env,
            layout,
            record,
            scope,
            known,
            first,
            start,
            base,
            at,
            s,
            rounds,
        ),
        seen_by_host(*field) matches Some((name, ty)) ==> place(schema, layout, name) + breadth(ty)
            <= layout.root_size,
    ensures
        field_code(env, field, schema, layout, pairs, record, scope, at) matches Ok(code) ==> {
            &&& at.lets < u32::MAX ==> at.lets <= code.slots.lets && at.records
                <= code.slots.records
            &&& at.lets < u32::MAX && finishing_parts(env, rounds) ==> run(
                code.ops,
                s,
                rounds,
            ) is Next
            &&& at.lets < u32::MAX && code.slots.lets < u32::MAX ==> (run(
                code.ops,
                s,
                rounds,
            ) matches Flow::Next(t) ==> field_done(
                env,
                *field,
                schema,
                layout,
                pairs,
                scope,
                known,
                first,
                start,
                base,
                code,
                s,
                t,
                v,
                rounds,
            ))
        },
{
    match *field {
        AnonDictField::Closure { .. } => {
            if at.lets < u32::MAX {
                lemma_closure_field(
                    env,
                    field,
                    schema,
                    layout,
                    pairs,
                    record,
                    scope,
                    known,
                    first,
                    start,
                    base,
                    at,
                    s,
                    rounds,
                )
            } else {
                0
            }
        },
        AnonDictField::Scalar { name, .. } => {
            lemma_visible_field(
                env,
                *field,
                schema,
                layout,
                pairs,
                record,
                scope,
                known,
                first,
                start,
                base,
                at,
                s,
                rounds,
            )
        },
        AnonDictField::CrossRegionParamList { name, .. } => {
            lemma_link_field(
                env,
                *field,
                schema,
                layout,
                pairs,
                record,
                scope,
                known,
                first,
                start,
                base,
                at,
                s,
                rounds,
            )
        },
        AnonDictField::DictStrInt { name, entries } => {
            let op = OpView::ConstDict {
                idx: at.pool.dicts,
                entries: crate::field_types::entries_view(entries@),
            };
            let taken = at.with_pool(at.pool.after_dict());
            let v = dict_handle(first.world, at.pool.dicts, entries@);
            if at.lets < u32::MAX {
                lemma_constant_field(
                    name,
                    op,
                    IrType::Dict,
                    layout,
                    scope,
                    known,
                    first,
                    start,
                    base,
                    taken,
                    s,
                    rounds,
                );
            }
            v
        },
        AnonDictField::ListString { name, elements } => {
            let op = OpView::ConstListString {
                idx: at.pool.string_lists,
                elements: texts(elements@),
            };
            let taken = at.with_pool(at.pool.after_string_list());
            let v = text_list_handle(first.world, at.pool.string_lists, elements@);
            if at.lets < u32::MAX {
                lemma_constant_field(
                    name,
                    op,
                    IrType::ListString,
                    layout,
                    scope,
                    known,
                    first,
                    start,
                    base,
                    taken,
                    s,
                    rounds,
                );
            }
            v
        },
    }
}

/// The bytes are apart from the field at a position of the order.
spec fn apart_from(
    plan: AnonDictPlan,
    layout: OffsetTable,
    k: int,
    base: int,
    a: int,
    width: nat,
) -> bool {
    seen_by_host(emitted(plan, k)) matches Some((name, ty)) ==> a + width <= base + place(
        plan.schema,
        layout,
        name,
    ) || base + place(plan.schema, layout, name) + breadth(ty) <= a
}

/// The bytes are apart from all fields at and behind a position of the order.
spec fn apart_behind(
    plan: AnonDictPlan,
    layout: OffsetTable,
    from: int,
    base: int,
    a: int,
    width: nat,
) -> bool {
    forall|k: int|
        from <= k < plan.emit_order@.len() ==> #[trigger] apart_from(
            plan,
            layout,
            k,
            base,
            a,
            width,
        )
}

/// A field is apart from those behind it.
proof fn lemma_own_place(plan: AnonDictPlan, layout: OffsetTable, k: int, base: int)
    requires
        plan_apart(plan, layout),
        0 <= k < plan.emit_order@.len(),
    ensures
        seen_by_host(emitted(plan, k)) matches Some((name, ty)) ==> apart_behind(
            plan,
            layout,
            k + 1,
            base,
            base + place(plan.schema, layout, name),
            breadth(ty),
        ),
{
    if let Some((name, ty)) = seen_by_host(emitted(plan, k)) {
        let a = base + place(plan.schema, layout, name);
        assert forall|m: int| k + 1 <= m < plan.emit_order@.len() implies #[trigger] apart_from(
            plan,
            layout,
            m,
            base,
            a,
            breadth(ty),
        ) by {
            if seen_by_host(emitted(plan, m)) is Some {
                assert(clear_of(plan, layout, k, m));
            }
        }
    }
}

proof fn lemma_code_grows<'a, L: RecordLowering>(
    env: RecordEnv<'_, L>,
    field: &'a AnonDictField,
    schema: Schema,
    layout: OffsetTable,
    pairs: Seq<(TokenKey, Node)>,
    record: u32,
    scope: Scope<'_>,
    at: SlotsView,
    rounds: nat,
)
    requires
        steady_parts(env, rounds),
    ensures
        field_code(env, field, schema, layout, pairs, record, scope, at) matches Ok(code)
            ==> at.lets <= code.slots.lets && at.records <= code.slots.records,
{
    if let Ok(code) = field_code(env, field, schema, layout, pairs, record, scope, at) {
        match *field {
            AnonDictField::Closure { name, sig } => {
                let value = source_value(pairs, name@)->0;
                let b = closure_binding(name, at.lets, &sig);
                let f = env.low.closure_lowered(
                    value,
                    sig.params@,
                    sig.ret,
                    Scope::Bind(b, &scope),
                    at.after(1),
                )->Ok_0;
                assert(steady(f, at.after(1), rounds));
            },
            AnonDictField::Scalar { name, ty } => {
                let value = source_value(pairs, name@)->0;
                let f = code_for(env, *field, value, scope, at)->Ok_0;
                assert(steady(f, at, rounds));
            },
            AnonDictField::CrossRegionParamList { name, ty } => {
                let value = source_value(pairs, name@)->0;
                let f = env.low.lowered(value, scope, at)->Ok_0;
                assert(steady(f, at, rounds));
            },
            _ => {},
        }
    }
}

proof fn lemma_slots_grow<L: RecordLowering>(
    env: RecordEnv<'_, L>,
    plan: AnonDictPlan,
    layout: OffsetTable,
    pairs: Seq<(TokenKey, Node)>,
    record: u32,
    from: int,
    scope: Scope<'_>,
    at: SlotsView,
    rounds: nat,
)
    requires
        steady_parts(env, rounds),
    ensures
        fields_from(env, plan, layout, pairs, record, from, scope, at) matches Ok(g) ==> at.lets
            <= g.slots.lets,
    decreases plan.emit_order@.len() - from,
{
    if 0 <= from < plan.emit_order@.len() {
        let field = &plan.fields@[plan.emit_order@[from] as int];
        lemma_code_grows(env, field, plan.schema, layout, pairs, record, scope, at, rounds);
        if let Ok(code) = field_code(
            env,
            field,
            plan.schema,
            layout,
            pairs,
            record,
            scope,
            at,
        ) {
            lemma_slots_grow(
                env,
                plan,
                layout,
                pairs,
                record,
                from + 1,
                scope_behind(code, scope),
                code.slots,
                rounds,
            );
        }
    }
}

/// The fields at and behind `from`, from the state between two fields.
#[verifier::rlimit(60)]
proof fn lemma_fields_hold<L: RecordLowering>(
    env: RecordEnv<'_, L>,
    plan: AnonDictPlan,
    layout: OffsetTable,
    pairs: Seq<(TokenKey, Node)>,
    record: u32,
    from: int,
    scope: Scope<'_>,
    known: Map<Seq<char>, int>,
    first: Machine,
    start: SlotsView,
    base: int,
    at: SlotsView,
    s: Machine,
    rounds: nat,
)
    requires
        0 <= from <= plan.emit_order@.len(),
        plan_apart(plan, layout),
        between_fields(
            env,
            layout,
            record,
            scope,
            known,
            first,
            start,
            base,
            at,
            s,
            rounds,
        ),
    ensures
        fields_from(env, plan, layout, pairs, record, from, scope, at) matches Ok(g) ==> {
            &&& at.lets <= g.slots.lets
            &&& g.slots.lets < u32::MAX ==> {
                &&& finishing_parts(env, rounds) ==> run(g.ops, s, rounds) is Next
                &&& run(g.ops, s, rounds) matches Flow::Next(t) ==> {
                    &&& t.stack == s.stack
                    &&& tight(t)
                    &&& undisturbed(first, t, start, base, base + layout.root_size)
                    &&& record_holds(
                        env,
                        plan,
                        layout,
                        pairs,
                        from,
                        known,
                        first,
                        start,
                        base,
                        t,
                        rounds,
                    )
                    &&& forall|a: int| #[trigger]
                        s.mem.dom().contains(a) && apart_behind(
                            plan,
                            layout,
                            from,
                            base,
                            a,
                            s.mem[a].width,
                        ) ==> t.mem.dom().contains(a) && t.mem[a] == s.mem[a]
                }
            }
        },
    decreases plan.emit_order@.len() - from,
{
    if let Ok(g) = fields_from(env, plan, layout, pairs, record, from, scope, at) {
        if from >= plan.emit_order@.len() {
            assert(run(g.ops, s, rounds) == Flow::Next(s));
        } else {
            let field = &plan.fields@[plan.emit_order@[from] as int];
            assert(*field == emitted(plan, from));
            let code = field_code(env, field, plan.schema, layout, pairs, record, scope, at)->Ok_0;
            let inner = scope_behind(code, scope);
            let rest = fields_from(
                env,
                plan,
                layout,
                pairs,
                record,
                from + 1,
                inner,
                code.slots,
            )->Ok_0;
            assert(g.ops == code.ops + rest.ops);
            assert(g.slots == rest.slots);
            let v = lemma_field(
                env,
                field,
                plan.schema,
                layout,
                pairs,
                record,
                scope,
                known,
                first,
                start,
                base,
                at,
                s,
                rounds,
            );
            lemma_run_concat(code.ops, rest.ops, 0, s, rounds);
            lemma_slots_grow(env, plan, layout, pairs, record, from + 1, inner, code.slots, rounds);
            lemma_code_grows(env, field, plan.schema, layout, pairs, record, scope, at, rounds);
            if g.slots.lets < u32::MAX {
                if let Flow::Next(u) = run(code.ops, s, rounds) {
                    let more = known_behind(*field, known, v);
                    lemma_fields_hold(
                        env,
                        plan,
                        layout,
                        pairs,
                        record,
                        from + 1,
                        inner,
                        more,
                        first,
                        start,
                        base,
                        code.slots,
                        u,
                        rounds,
                    );
                    if let Flow::Next(t) = run(rest.ops, u, rounds) {
                        if let Some((name, ty)) = seen_by_host(*field) {
                            let a = base + place(plan.schema, layout, name);
                            assert(u.mem.dom().contains(a));
                            lemma_own_place(plan, layout, from, base);
                            assert(apart_behind(
                                plan,
                                layout,
                                from + 1,
                                base,
                                a,
                                u.mem[a].width,
                            ));
                        }
                        assert forall|a: int| #[trigger]
                            s.mem.dom().contains(a) && apart_behind(
                                plan,
                                layout,
                                from,
                                base,
                                a,
                                s.mem[a].width,
                            ) implies t.mem.dom().contains(a) && t.mem[a] == s.mem[a] by {
                            assert(apart_from(plan, layout, from, base, a, s.mem[a].width));
                            assert(u.mem.dom().contains(a) && u.mem[a] == s.mem[a]);
                            assert forall|k: int|
                                from + 1 <= k < plan.emit_order@.len() implies #[trigger]
                            apart_from(plan, layout, k, base, a, u.mem[a].width) by {
                                assert(apart_from(plan, layout, k, base, a, s.mem[a].width));
                            }
                            assert(apart_behind(plan, layout, from + 1, base, a, u.mem[a].width));
                        }
                        assert(has_value(
                            env,
                            emitted(plan, from),
                            pairs,
                            known,
                            first,
                            start,
                            base,
                            base + layout.root_size,
                            v,
                            rounds,
                        ));
                    }
                }
            }
        }
    }
}

/// The code of a returned dictionary fills the returned record: every field has
/// the value of the expression written for it, which may use the fields emitted
/// before it by their names, and the record holds each field that the host sees
/// at the place that the layout gives to the field of that name.
pub proof fn law_returned_record_holds_its_fields<L: RecordLowering>(
    env: RecordEnv<'_, L>,
    plan: AnonDictPlan,
    layout: OffsetTable,
    pairs: Seq<(TokenKey, Node)>,
    record: u32,
    scope: Scope<'_>,
    at: SlotsView,
    s: Machine,
    rounds: nat,
)
    requires
        steady_parts(env, rounds),
        plan_apart(plan, layout),
        tight(s),
        record < at.records,
        s.records.dom().contains(record),
        s.records[record] + layout.root_size <= s.free,
        fields_from(env, plan, layout, pairs, record, 0, scope, at) matches Ok(g) && g.slots.lets
            < u32::MAX,
    ensures
        ({
            let g = fields_from(env, plan, layout, pairs, record, 0, scope, at)->Ok_0;
            let base = s.records[record];
            &&& finishing_parts(env, rounds) ==> run(g.ops, s, rounds) is Next
            &&& run(g.ops, s, rounds) matches Flow::Next(t) ==> {
                &&& t.stack == s.stack
                &&& undisturbed(s, t, at, base, base + layout.root_size)
                &&& record_holds(
                    env,
                    plan,
                    layout,
                    pairs,
                    0,
                    Map::empty(),
                    s,
                    at,
                    base,
                    t,
                    rounds,
                )
            }
        }),
{
    lemma_fields_hold(
        env,
        plan,
        layout,
        pairs,
        record,
        0,
        scope,
        Map::empty(),
        s,
        at,
        s.records[record],
        at,
        s,
        rounds,
    );
}

} // verus!

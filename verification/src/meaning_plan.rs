//! What the plan of a returned dictionary shows and hides, and the types that it
//! finds.

use vstd::prelude::*;

use crate::ast::{key_is, Expr, Node, Operator, TokenKey, TokenRange};
use crate::dict_plan::{
    first_state, host_fields, kept, kept_order, ordered_plan, plan_of, plan_step, plan_steps,
    AnonFieldView, ClosurePlanner, PlanState,
};
use crate::expr::{expr_lowered, ExprEnv, ExprLowering};
use crate::field_types::{
    combined, int_entries, list_kind, literal_type, marked_internal, payload_scalar, payload_slot,
    scalar_list_type, scalar_repr, scalar_type, variant_element, variant_elements,
    variant_list_type, FieldEnv, PayloadSlot, PayloadTypes, ScalarType, VariantListKind,
};
use crate::fragment::{Scope, SlotsView};
use crate::ir::IrType;
use crate::list_literal::{const_list, const_list_kind, law_const_list_is_one_constant};
use crate::meaning_variants::{law_payload_is_the_named_field, payload_word};
use crate::shape::{ir_type_of, view_ir_type};
use crate::types::{Field, FieldView, TypeRepr};
use crate::variant::{variant_shape, PayloadKey};
use crate::workspace::SchemaDef;

verus! {

/// The text of a plain key.
pub open spec fn key_word(key: TokenKey) -> Seq<char> {
    match key {
        TokenKey::String(s, _, _) => s@,
        _ => Seq::empty(),
    }
}

/// The field of the returned record that a planned field is, if the host sees it.
pub open spec fn shown_field(f: AnonFieldView) -> Option<FieldView> {
    match f {
        AnonFieldView::Scalar { name, ty } => Some(FieldView { name, ty }),
        AnonFieldView::CrossRegionParamList { name, ty } => Some(FieldView { name, ty }),
        _ => None,
    }
}

/// The names of the entries that are not marked as internal, in their order.
pub open spec fn visible_names(pairs: Seq<(TokenKey, Node)>) -> Seq<Seq<char>> {
    pairs.filter(|p: (TokenKey, Node)| !marked_internal(p.1)).map_values(
        |p: (TokenKey, Node)| key_word(p.0),
    )
}

pub open spec fn field_names(fields: Seq<FieldView>) -> Seq<Seq<char>> {
    fields.map_values(|f: FieldView| f.name)
}

/// What has become of an entry: what is not marked as internal is shown under the
/// name of its key, and what is marked is not shown.
pub open spec fn settled_as(pair: (TokenKey, Node), slot: Option<AnonFieldView>) -> bool {
    if marked_internal(pair.1) {
        slot matches Some(f) ==> shown_field(f) is None
    } else {
        slot matches Some(f) && (shown_field(f) matches Some(shown) && key_is(pair.0, shown.name))
    }
}

proof fn lemma_plan_step<P: ClosurePlanner>(
    planner: P,
    types: Seq<(String, &SchemaDef)>,
    params: Seq<Field>,
    pairs: Seq<(TokenKey, Node)>,
    range: TokenRange,
    state: PlanState,
    decl: int,
)
    requires
        0 <= decl < pairs.len(),
        state.slots.len() == pairs.len(),
        state.slots[decl] is None,
        plan_step(planner, types, params, pairs, range, state, decl) is Ok,
    ensures
        ({
            let next = plan_step(planner, types, params, pairs, range, state, decl)->Ok_0;
            &&& next.slots.len() == pairs.len()
            &&& settled_as(pairs[decl], next.slots[decl])
            &&& forall|j: int|
                0 <= j < pairs.len() && j != decl ==> next.slots[j] == #[trigger] state.slots[j]
        }),
{
}

proof fn lemma_plan_steps<P: ClosurePlanner>(
    planner: P,
    types: Seq<(String, &SchemaDef)>,
    params: Seq<Field>,
    pairs: Seq<(TokenKey, Node)>,
    range: TokenRange,
    order: Seq<int>,
    state: PlanState,
    from: int,
)
    requires
        0 <= from <= order.len(),
        order.no_duplicates(),
        forall|k: int| 0 <= k < order.len() ==> 0 <= (#[trigger] order[k]) < pairs.len(),
        state.slots.len() == pairs.len(),
        forall|k: int|
            0 <= k < from ==> settled_as(pairs[#[trigger] order[k]], state.slots[order[k]]),
        forall|k: int| from <= k < order.len() ==> state.slots[#[trigger] order[k]] is None,
        plan_steps(planner, types, params, pairs, range, order, state, from) is Ok,
    ensures
        ({
            let last = plan_steps(planner, types, params, pairs, range, order, state, from)->Ok_0;
            &&& last.slots.len() == pairs.len()
            &&& forall|k: int|
                0 <= k < order.len() ==> settled_as(
                    pairs[#[trigger] order[k]],
                    last.slots[order[k]],
                )
        }),
    decreases order.len() - from,
{
    if from < order.len() {
        let decl = order[from];
        lemma_plan_step(planner, types, params, pairs, range, state, decl);
        let next = plan_step(planner, types, params, pairs, range, state, decl)->Ok_0;
        assert forall|k: int| 0 <= k < order.len() && k != from implies next.slots[
            #[trigger] order[k]
        ] == state.slots[order[k]] by {
            assert(order[k] != decl);
        }
        lemma_plan_steps(planner, types, params, pairs, range, order, next, from + 1);
    }
}

proof fn lemma_visible(pairs: Seq<(TokenKey, Node)>, slots: Seq<Option<AnonFieldView>>)
    requires
        slots.len() == pairs.len(),
        forall|j: int| 0 <= j < pairs.len() ==> settled_as(#[trigger] pairs[j], slots[j]),
    ensures
        field_names(host_fields(kept(slots))) == visible_names(pairs),
    decreases pairs.len(),
{
    reveal(Seq::filter);
    if pairs.len() > 0 {
        let before = pairs.drop_last();
        let earlier = slots.drop_last();
        assert forall|j: int| 0 <= j < before.len() implies settled_as(
            #[trigger] before[j],
            earlier[j],
        ) by {
            assert(before[j] == pairs[j]);
        }
        lemma_visible(before, earlier);
        assert(settled_as(pairs[pairs.len() - 1], slots[slots.len() - 1]));
        assert(pairs[pairs.len() - 1] == pairs.last());
        let shown = host_fields(kept(earlier));
        if let Some(f) = slots.last() {
            assert(kept(slots).drop_last() =~= kept(earlier));
            assert(kept(slots).last() == f);
            if let Some(field) = shown_field(f) {
                assert(host_fields(kept(slots)) == shown.push(field));
                assert(field_names(shown.push(field)) =~= field_names(shown).push(field.name));
            }
        }
        let all = pairs.filter(|p: (TokenKey, Node)| !marked_internal(p.1));
        let rest = before.filter(|p: (TokenKey, Node)| !marked_internal(p.1));
        if !marked_internal(pairs.last().1) {
            assert(all == rest.push(pairs.last()));
        } else {
            assert(all == rest);
        }
        assert(visible_names(pairs) =~= if marked_internal(pairs.last().1) {
            visible_names(before)
        } else {
            visible_names(before).push(key_word(pairs.last().0))
        });
    } else {
        assert(field_names(host_fields(kept(slots))) =~= visible_names(pairs));
    }
}

/// The host sees exactly the entries that are not marked as internal, under their
/// names and in the order of their declaration.
pub proof fn law_host_sees_what_is_not_internal<P: ClosurePlanner>(
    planner: P,
    types: Seq<(String, &SchemaDef)>,
    params: Seq<Field>,
    param_tys: Map<Seq<char>, IrType>,
    pairs: Seq<(TokenKey, Node)>,
    range: TokenRange,
    order: Seq<int>,
)
    requires
        order.no_duplicates(),
        forall|k: int| 0 <= k < order.len() ==> 0 <= (#[trigger] order[k]) < pairs.len(),
        forall|j: int| 0 <= j < pairs.len() ==> #[trigger] order.contains(j),
        ordered_plan(planner, types, params, param_tys, pairs, range, order) is Ok,
    ensures
        ({
            let plan = ordered_plan(
                planner,
                types,
                params,
                param_tys,
                pairs,
                range,
                order,
            )->Ok_0;
            &&& field_names(plan.schema.fields) == visible_names(pairs)
            &&& plan.schema.fields == plan.fields.filter_map(|f: AnonFieldView| shown_field(f))
        }),
{
    let first = first_state(param_tys, pairs.len());
    lemma_plan_steps(planner, types, params, pairs, range, order, first, 0);
    let last = plan_steps(planner, types, params, pairs, range, order, first, 0)->Ok_0;
    assert forall|j: int| 0 <= j < pairs.len() implies settled_as(
        #[trigger] pairs[j],
        last.slots[j],
    ) by {
        assert(order.contains(j));
        let k = choose|k: int| 0 <= k < order.len() && order[k] == j;
        assert(settled_as(pairs[order[k]], last.slots[order[k]]));
    }
    lemma_visible(pairs, last.slots);
    lemma_host_fields(kept(last.slots));
}

proof fn lemma_host_fields(fields: Seq<AnonFieldView>)
    ensures
        host_fields(fields) == fields.filter_map(|f: AnonFieldView| shown_field(f)),
    decreases fields.len(),
{
    reveal(Seq::filter_map);
    if fields.len() > 0 {
        lemma_host_fields(fields.drop_last());
        if let Some(f) = shown_field(fields.last()) {
            let rest = host_fields(fields.drop_last());
            assert(rest.push(f) =~= rest + seq![f]);
        }
    }
}

proof fn lemma_place(slots: Seq<Option<AnonFieldView>>, i: int)
    requires
        0 <= i < slots.len(),
        slots[i] is Some,
    ensures
        kept(slots.take(i)).len() < kept(slots).len(),
        kept(slots)[kept(slots.take(i)).len() as int] == slots[i]->0,
    decreases slots.len(),
{
    let before = slots.drop_last();
    if i == before.len() {
        assert(slots.take(i) =~= before);
    } else {
        lemma_place(before, i);
        assert(slots.take(i) =~= before.take(i));
    }
}

/// The planned fields are the settled ones in the order of their declaration; they
/// are emitted in the order in which they were settled.
pub proof fn law_fields_are_emitted_in_the_order_given(
    slots: Seq<Option<AnonFieldView>>,
    order: Seq<int>,
)
    requires
        forall|k: int| 0 <= k < order.len() ==> 0 <= (#[trigger] order[k]) < slots.len(),
    ensures
        plan_of(slots, order).fields == slots.filter_map(|f: Option<AnonFieldView>| f),
        plan_of(slots, order).emit_order.map_values(|p: int| plan_of(slots, order).fields[p])
            == order.filter_map(|i: int| slots[i]),
{
    lemma_kept(slots);
    lemma_emitted(slots, order);
    let fields = kept(slots);
    assert(plan_of(slots, order).emit_order.map_values(|p: int| plan_of(slots, order).fields[p])
        =~= kept_order(slots, order).map_values(|p: int| fields[p]));
}

proof fn lemma_kept(slots: Seq<Option<AnonFieldView>>)
    ensures
        kept(slots) == slots.filter_map(|f: Option<AnonFieldView>| f),
    decreases slots.len(),
{
    reveal(Seq::filter_map);
    if slots.len() > 0 {
        lemma_kept(slots.drop_last());
        if let Some(f) = slots.last() {
            let rest = kept(slots.drop_last());
            assert(rest.push(f) =~= rest + seq![f]);
        }
    }
}

proof fn lemma_emitted(slots: Seq<Option<AnonFieldView>>, order: Seq<int>)
    requires
        forall|k: int| 0 <= k < order.len() ==> 0 <= (#[trigger] order[k]) < slots.len(),
    ensures
        ({
            let fields = kept(slots);
            kept_order(slots, order).map_values(|p: int| fields[p]) == order.filter_map(
                |i: int| slots[i],
            )
        }),
    decreases order.len(),
{
    reveal(Seq::filter_map);
    let fields = kept(slots);
    if order.len() > 0 {
        let before = order.drop_last();
        assert forall|k: int| 0 <= k < before.len() implies 0 <= (#[trigger] before[k])
            < slots.len() by {
            assert(before[k] == order[k]);
        }
        lemma_emitted(slots, before);
        let i = order.last();
        assert(order[order.len() - 1] == i);
        let rest = kept_order(slots, before);
        if slots[i] is Some {
            lemma_place(slots, i);
            let p = kept(slots.take(i)).len() as int;
            assert(rest.push(p).map_values(|p: int| fields[p]) =~= rest.map_values(
                |p: int| fields[p],
            ) + seq![slots[i]->0]);
        }
    } else {
        assert(kept_order(slots, order).map_values(|p: int| fields[p]) =~= Seq::empty());
    }
}

// ---------------------------------------------------------------------------
// Hidden dictionaries and lists.
// ---------------------------------------------------------------------------

/// A hidden dictionary keeps each of its entries, in their order, and is accepted
/// where each is an integer under a plain key.
pub proof fn law_hidden_dictionary_keeps_its_entries(
    pairs: Seq<(TokenKey, Node)>,
    range: TokenRange,
    field: Seq<char>,
    from: int,
)
    requires
        0 <= from <= pairs.len(),
    ensures
        int_entries(pairs, range, field, from) is Ok <==> forall|i: int|
            from <= i < pairs.len() ==> (#[trigger] pairs[i]).0 is String && *pairs[i].1.expr
                is Int,
        int_entries(pairs, range, field, from) matches Ok(entries) ==> {
            &&& entries.len() == pairs.len() - from
            &&& forall|i: int|
                from <= i < pairs.len() ==> {
                    let (key, v) = entries[i - from];
                    key_is((#[trigger] pairs[i]).0, key) && *pairs[i].1.expr == Expr::Int(v)
                }
        },
    decreases pairs.len() - from,
{
    if from < pairs.len() {
        law_hidden_dictionary_keeps_its_entries(pairs, range, field, from + 1);
    }
}

/// A hidden list keeps each of its elements, in their order, and is accepted where
/// each is a string.
pub proof fn law_hidden_list_keeps_its_elements(
    items: Seq<Node>,
    range: TokenRange,
    field: Seq<char>,
    from: int,
)
    requires
        0 <= from <= items.len(),
    ensures
        crate::field_types::string_elements(items, range, field, from) is Ok <==> forall|i: int|
            from <= i < items.len() ==> *(#[trigger] items[i]).expr is String,
        crate::field_types::string_elements(items, range, field, from) matches Ok(elements) ==> {
            &&& elements.len() == items.len() - from
            &&& forall|i: int|
                from <= i < items.len() ==> (*(#[trigger] items[i]).expr matches Expr::String(s)
                    && s@ == elements[i - from])
        },
    decreases items.len() - from,
{
    if from < items.len() {
        law_hidden_list_keeps_its_elements(items, range, field, from + 1);
    }
}

// ---------------------------------------------------------------------------
// Types.
// ---------------------------------------------------------------------------

/// An operator between numbers gives an integer where both are integers, and a float
/// where one is; between strings it gives a string, and only where it joins them.
pub proof fn law_operators_keep_numbers_apart(op: Operator, l: IrType, r: IrType)
    ensures
        combined(op, l, r) == combined(op, r, l),
        combined(op, l, r) == Some(IrType::I64) <==> l == IrType::I64 && r == IrType::I64,
        combined(op, l, r) == Some(IrType::F64) <==> {
            &&& l == IrType::F64 || r == IrType::F64
            &&& l == IrType::F64 || l == IrType::I64
            &&& r == IrType::F64 || r == IrType::I64
        },
        combined(op, l, r) == Some(IrType::String) <==> op == Operator::Add && l == IrType::String
            && r == IrType::String,
        combined(op, l, r) matches Some(t) ==> t == IrType::I64 || t == IrType::F64 || t
            == IrType::String,
{
}

/// The type that a literal field is planned with is the type that its code leaves.
pub proof fn law_literal_field_has_the_type_of_its_code<L: ExprLowering>(
    low: L,
    env: ExprEnv<'_>,
    fields: FieldEnv,
    expr: Expr,
    range: TokenRange,
    field: Seq<char>,
    scope: Scope<'_>,
    at: SlotsView,
)
    requires
        expr is Int || expr is Float || expr is Bool || expr is String,
    ensures
        scalar_type(fields, expr, range, field) matches Ok(t) && expr_lowered(
            low,
            env,
            expr,
            range,
            scope,
            at,
        )->Ok_0.ty == Some(t),
        scalar_repr(fields, expr, range, field) matches Ok(ty) && ir_type_of(ty) == Some(
            scalar_type(fields, expr, range, field)->Ok_0,
        ),
{
}

/// A list field that the host sees is planned with the type that the code of its
/// literals leaves.
pub proof fn law_literal_list_field_has_the_type_of_its_code(
    items: Seq<Node>,
    range: TokenRange,
    field: Seq<char>,
    at: SlotsView,
)
    requires
        items.len() > 0,
        scalar_list_type(items, range, field) is Ok,
    ensures
        const_list(items, range, at) is Ok,
        view_ir_type(scalar_list_type(items, range, field)->Ok_0) == const_list(
            items,
            range,
            at,
        )->Ok_0.ty,
{
    let ty = literal_type(*items[0].expr)->0;
    lemma_same_literals(items, ty, 1);
    let kind = const_list_kind(*items[0].expr)->0;
    assert forall|i: int| 0 <= i < items.len() implies kind.admits(
        *(#[trigger] items[i]).expr,
    ) by {
        assert(literal_type(*items[i].expr) == Some(ty));
    }
    law_const_list_is_one_constant(items, range, at);
}

proof fn lemma_same_literals(items: Seq<Node>, ty: ScalarType, from: int)
    requires
        0 <= from,
        crate::field_types::odd_element(items, ty, from) is None,
    ensures
        forall|i: int|
            from <= i < items.len() ==> literal_type(*(#[trigger] items[i]).expr) == Some(ty),
    decreases items.len() - from,
{
    if from < items.len() {
        lemma_same_literals(items, ty, from + 1);
    }
}

/// What the planner takes a builtin variant to carry is what its construction stores:
/// nothing, or the payload in the field of the value or of the error.
pub proof fn law_planned_payload_is_the_constructed_one(
    kind: VariantListKind,
    expected: TypeRepr,
    variant: Seq<char>,
    range: TokenRange,
)
    requires
        match kind {
            VariantListKind::Option => expected is Option,
            VariantListKind::Result => expected is Result,
        },
    ensures
        payload_slot(kind, variant) is Some <==> variant_shape(&expected, None, variant, range)
            is Ok,
        payload_slot(kind, variant) matches Some(slot) ==> {
            let shape = variant_shape(&expected, None, variant, range)->Ok_0;
            match slot {
                PayloadSlot::Nothing => shape.payload is None,
                PayloadSlot::Value => shape.payload matches Some(p) && p.key == Some(
                    PayloadKey::Value,
                ),
                PayloadSlot::Error => shape.payload matches Some(p) && p.key == Some(
                    PayloadKey::Error,
                ),
            }
        },
{
}

/// The payload that a constructed element of a variant list is written with.
pub open spec fn written_payload(node: Node, variant: Seq<char>, payload: Node) -> bool {
    *node.expr matches Expr::VariantCtor { variant: name, body, .. } && name@ == variant && (
    *body.expr matches Expr::Dict(pairs) && pairs@.len() == 1 && key_is(
        pairs@[0].0,
        payload_word(variant),
    ) && pairs@[0].1 == payload)
}

proof fn lemma_variant_elements(
    items: Seq<Node>,
    kind: VariantListKind,
    params: Map<Seq<char>, IrType>,
    field: Seq<char>,
    found: PayloadTypes,
    from: int,
    i: int,
)
    requires
        0 <= from,
        variant_elements(items, kind, params, field, found, from) is Ok,
    ensures
        ({
            let last = variant_elements(items, kind, params, field, found, from)->Ok_0;
            &&& found.value is Some ==> last.value == found.value
            &&& found.error is Some ==> last.error == found.error
            &&& from <= i < items.len() ==> (*items[i].expr matches Expr::VariantCtor {
                variant,
                body,
                ..
            } && match payload_slot(kind, variant@) {
                None => false,
                Some(PayloadSlot::Nothing) => true,
                Some(slot) => {
                    &&& crate::field_types::ctor_payload(body, slot, items[i].range) matches Ok(p)
                    &&& payload_scalar(*p.expr, params) is Some
                    &&& payload_scalar(*p.expr, params) == if slot == PayloadSlot::Error {
                        last.error
                    } else {
                        last.value
                    }
                },
            })
        }),
    decreases items.len() - from,
{
    if from < items.len() {
        let more = variant_element(items[from], kind, params, field, found)->Ok_0;
        lemma_variant_elements(items, kind, params, field, more, from + 1, i);
    }
}

/// The type of a list of options or results is the one of its payloads: the payload of
/// each element is of the type that the list type says for its variant.
pub proof fn law_variant_list_type_fits_each_payload(
    items: Seq<Node>,
    field: Seq<char>,
    params: Map<Seq<char>, IrType>,
    i: int,
    variant: Seq<char>,
    payload: Node,
)
    requires
        variant_list_type(items, field, params) matches Ok(Some(_)),
        0 <= i < items.len(),
        written_payload(items[i], variant, payload),
        variant == "Some"@ || variant == "Ok"@ || variant == "Err"@,
    ensures
        payload_scalar(*payload.expr, params) matches Some(ty) && (variant_list_type(
            items,
            field,
            params,
        )->Ok_0->0 matches TypeRepr::List { element } && match *element {
            TypeRepr::Option { inner } => variant == "Some"@ && *inner == ty.spec_repr(),
            TypeRepr::Result { ok, err } => (variant == "Ok"@ && *ok == ty.spec_repr()) || (variant
                == "Err"@ && *err == ty.spec_repr()),
            _ => false,
        }),
{
    reveal_strlit("Some");
    reveal_strlit("Ok");
    reveal_strlit("Err");
    reveal_strlit("None");
    assert("Ok"@.len() != "Err"@.len() && "Some"@.len() != "Ok"@.len() && "Some"@.len()
        != "Err"@.len());
    assert("Some"@[0] != "None"@[0]);
    let kind = list_kind(items)->0;
    let none = PayloadTypes { value: None, error: None };
    lemma_variant_elements(items, kind, params, field, none, 0, i);
    if let Expr::VariantCtor { body, .. } = *items[i].expr {
        if let Expr::Dict(pairs) = *body.expr {
            let slot = payload_slot(kind, variant)->0;
            law_payload_is_the_named_field(
                pairs@,
                if slot == PayloadSlot::Error {
                    "error"@
                } else {
                    "value"@
                },
                items[i].range,
            );
        }
    }
}

} // verus!

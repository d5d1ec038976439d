//! Values of a known type ask for nothing but their parts.

use vstd::prelude::*;

use crate::ast::{CallArg, Expr, Node, TokenRange};
use crate::depth::{
    agree, alike_records, args_nest, lemma_call_nests, lemma_parts_nest, nests, nodes_nest,
};
use crate::depth_lists::lemma_variant_comprehension_agrees;
use crate::fragment::{Scope, SlotsView};
use crate::ir::texts;
use crate::records::{
    called_variant, constructed_variant, ctor_payload, lemma_ctor_payload_smaller, payload_fields,
    plain_value, schema_value, tuple_variant, typed_value, variant_items, FieldSlot, RecordEnv,
    RecordLowering,
};
use crate::types::{Schema, TypeRepr};
use crate::variant::{
    is_variant_list, is_variant_type, lemma_payload_value_is_field, payload_value, variant_named,
    variant_shape, VariantPayloadShape,
};

verus! {

/// The lowerings of two environments agree on what nests at most `n` levels,
/// and give the same for everything else.
pub open spec fn in_step<L: RecordLowering, H: RecordLowering>(
    l: RecordEnv<'_, L>,
    h: RecordEnv<'_, H>,
    n: nat,
) -> bool {
    &&& alike_records(*l.low, *h.low)
    &&& agree(*l.low, *h.low, n)
    &&& l.table == h.table
    &&& l.in_scratch == h.in_scratch
}

/// [`schema_value`] asks for nothing but its parts.
pub proof fn lemma_schema_value_agrees<L: RecordLowering, H: RecordLowering>(
    l: RecordEnv<'_, L>,
    h: RecordEnv<'_, H>,
    n: nat,
    schema: Schema,
    value: Node,
    range: TokenRange,
    scope: Scope<'_>,
    at: SlotsView,
)
    requires
        in_step(l, h, n),
        nests(n, *value.expr),
    ensures
        schema_value(l, schema, value, range, scope, at) == schema_value(
            h,
            schema,
            value,
            range,
            scope,
            at,
        ),
{
}

/// [`plain_value`] asks for nothing but its parts.
pub proof fn lemma_plain_value_agrees<L: RecordLowering, H: RecordLowering>(
    l: RecordEnv<'_, L>,
    h: RecordEnv<'_, H>,
    n: nat,
    expected: TypeRepr,
    value: Node,
    scope: Scope<'_>,
    at: SlotsView,
)
    requires
        in_step(l, h, n),
        nests(n, *value.expr),
    ensures
        plain_value(l, expected, value, scope, at) == plain_value(h, expected, value, scope, at),
{
    if let TypeRepr::Schema { schema } = expected {
        lemma_schema_value_agrees(l, h, n, *schema, value, value.range, scope, at);
    }
}

/// [`payload_fields`] asks for nothing but its parts.
pub proof fn lemma_payload_fields_agrees<L: RecordLowering, H: RecordLowering>(
    l: RecordEnv<'_, L>,
    h: RecordEnv<'_, H>,
    n: nat,
    schema: Schema,
    slots: Seq<FieldSlot>,
    args: Seq<CallArg>,
    record: u32,
    scope: Scope<'_>,
    at: SlotsView,
)
    requires
        in_step(l, h, n),
    ensures
        payload_fields(l, schema, slots, args, record, scope, at) == payload_fields(
            h,
            schema,
            slots,
            args,
            record,
            scope,
            at,
        ),
    decreases args.len(),
{
    if args.len() > 0 {
        lemma_payload_fields_agrees(l, h, n, schema, slots, args.drop_last(), record, scope, at);
    }
}

/// [`tuple_variant`] asks for nothing but its parts.
pub proof fn lemma_tuple_variant_agrees<L: RecordLowering, H: RecordLowering>(
    l: RecordEnv<'_, L>,
    h: RecordEnv<'_, H>,
    n: nat,
    expected: TypeRepr,
    variant: Seq<char>,
    tag: u8,
    ty: TypeRepr,
    args: Seq<CallArg>,
    range: TokenRange,
    scope: Scope<'_>,
    at: SlotsView,
)
    requires
        in_step(l, h, n),
    ensures
        tuple_variant(l, expected, variant, tag, ty, args, range, scope, at) == tuple_variant(
            h,
            expected,
            variant,
            tag,
            ty,
            args,
            range,
            scope,
            at,
        ),
{
    if let TypeRepr::Schema { schema } = ty {
        if let Ok(layout) = l.low.layout(*schema) {
            lemma_payload_fields_agrees(
                l,
                h,
                n,
                *schema,
                layout.fields,
                args,
                at.records,
                scope,
                at.after_record(),
            );
        }
    }
}

/// [`called_variant`] asks for nothing but its parts.
pub proof fn lemma_called_variant_agrees<L: RecordLowering, H: RecordLowering>(
    l: RecordEnv<'_, L>,
    h: RecordEnv<'_, H>,
    n: nat,
    expected: TypeRepr,
    variant: Seq<char>,
    args: Seq<CallArg>,
    range: TokenRange,
    scope: Scope<'_>,
    at: SlotsView,
)
    requires
        in_step(l, h, n),
        args_nest(n, args),
    ensures
        called_variant(l, expected, variant, args, range, scope, at) == called_variant(
            h,
            expected,
            variant,
            args,
            range,
            scope,
            at,
        ),
    decreases args, 2nat,
{
    if let Ok(shape) = variant_shape(&expected, None, variant, range) {
        if let Some(payload) = shape.payload {
            if payload.key is Some {
                if args.len() == 1 {
                    assert(nests(n, *args[0].value.expr));
                    law_typed_value_asks_only_its_parts(
                        l,
                        h,
                        n,
                        *payload.ty,
                        args[0].value,
                        scope,
                        at,
                    );
                }
            } else {
                lemma_tuple_variant_agrees(
                    l,
                    h,
                    n,
                    expected,
                    variant,
                    shape.tag,
                    *payload.ty,
                    args,
                    range,
                    scope,
                    at,
                );
            }
        }
    }
}

/// The payload of a variant is a part of its body.
pub proof fn lemma_ctor_payload_nests(
    n: nat,
    body: Node,
    payload: VariantPayloadShape<'_>,
    range: TokenRange,
)
    requires
        nests(n, *body.expr),
    ensures
        ctor_payload(body, payload, range) matches Ok(node) ==> nests(n, *node.expr),
{
    lemma_parts_nest(n, *body.expr);
    if let Expr::Dict(pairs) = *body.expr {
        if let Some(key) = payload.key {
            lemma_payload_value_is_field(pairs@, key.text(), range);
            if let Ok(Some(node)) = payload_value(pairs@, key.text(), range) {
                let i = choose|i: int| 0 <= i < pairs@.len() && (#[trigger] pairs@[i]).1 == node;
                assert(nests(n, *pairs@[i].1.expr));
            }
        }
    }
}

/// [`constructed_variant`] asks for nothing but its parts.
pub proof fn lemma_constructed_variant_agrees<L: RecordLowering, H: RecordLowering>(
    l: RecordEnv<'_, L>,
    h: RecordEnv<'_, H>,
    n: nat,
    expected: TypeRepr,
    path: Seq<Seq<char>>,
    variant: Seq<char>,
    body: Node,
    range: TokenRange,
    scope: Scope<'_>,
    at: SlotsView,
)
    requires
        in_step(l, h, n),
        nests(n, *body.expr),
    ensures
        constructed_variant(
            l,
            expected,
            path,
            variant,
            body,
            range,
            scope,
            at,
        ) == constructed_variant(
            h,
            expected,
            path,
            variant,
            body,
            range,
            scope,
            at,
        ),
    decreases body, 2nat,
{
    if let Ok(shape) = variant_shape(&expected, Some(path), variant, range) {
        if let Some(payload) = shape.payload {
            if let Ok(node) = ctor_payload(body, payload, range) {
                lemma_ctor_payload_smaller(body, payload, range);
                lemma_ctor_payload_nests(n, body, payload, range);
                law_typed_value_asks_only_its_parts(l, h, n, *payload.ty, node, scope, at);
            }
        }
    }
}

/// [`variant_items`] asks for nothing but its parts.
pub proof fn lemma_variant_items_agrees<L: RecordLowering, H: RecordLowering>(
    l: RecordEnv<'_, L>,
    h: RecordEnv<'_, H>,
    n: nat,
    element: TypeRepr,
    items: Seq<Node>,
    scope: Scope<'_>,
    at: SlotsView,
)
    requires
        in_step(l, h, n),
        nodes_nest(n, items),
    ensures
        variant_items(l, element, items, scope, at) == variant_items(h, element, items, scope, at),
    decreases items, 0nat,
{
    if items.len() > 0 {
        assert(nodes_nest(n, items.drop_last())) by {
            assert forall|i: int| 0 <= i < items.drop_last().len() implies nests(
                n,
                *(#[trigger] items.drop_last()[i]).expr,
            ) by {
                assert(items[i] == items.drop_last()[i]);
            }
        }
        assert(items.last() == items[items.len() - 1]);
        lemma_variant_items_agrees(l, h, n, element, items.drop_last(), scope, at);
        if let Ok(pre) = variant_items(l, element, items.drop_last(), scope, at) {
            law_typed_value_asks_only_its_parts(
                l,
                h,
                n,
                element,
                items.last(),
                scope,
                pre.slots,
            );
        }
    }
}

/// The lowering of a value of a known type asks another one for nothing but the
/// value and its parts: two lowerings that agree on those give the same, be it
/// code or an error.
pub proof fn law_typed_value_asks_only_its_parts<L: RecordLowering, H: RecordLowering>(
    l: RecordEnv<'_, L>,
    h: RecordEnv<'_, H>,
    n: nat,
    expected: TypeRepr,
    value: Node,
    scope: Scope<'_>,
    at: SlotsView,
)
    requires
        in_step(l, h, n),
        nests(n, *value.expr),
    ensures
        typed_value(l, expected, value, scope, at) == typed_value(h, expected, value, scope, at),
    decreases value, 1nat,
{
    broadcast use lemma_variant_comprehension_agrees;

    lemma_plain_value_agrees(l, h, n, expected, value, scope, at);
    lemma_parts_nest(n, *value.expr);
    match *value.expr {
        Expr::FnCall { path, args } => {
            lemma_call_nests(n, *value.expr);
            if !is_variant_list(expected) && is_variant_type(expected) {
                if let Some(name) = variant_named(expected, path@, true) {
                    lemma_called_variant_agrees(
                        l,
                        h,
                        n,
                        expected,
                        name,
                        args@,
                        value.range,
                        scope,
                        at,
                    );
                }
            }
        },
        Expr::List(items) => {
            if is_variant_list(expected) {
                lemma_variant_items_agrees(l, h, n, *expected->element, items@, scope, at);
            }
        },
        Expr::VariantCtor { enum_path, variant, body } => {
            if is_variant_type(expected) {
                lemma_constructed_variant_agrees(
                    l,
                    h,
                    n,
                    expected,
                    texts(enum_path@),
                    variant@,
                    body,
                    value.range,
                    scope,
                    at,
                );
            }
        },
        _ => {},
    }
}

} // verus!

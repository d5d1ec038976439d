//! Records, variants and lists of variants have slots of their own.

use vstd::prelude::*;

use crate::ast::{CallArg, Expr, Node, TokenRange};
use crate::error::ErrorView;
use crate::fragment::{FragmentView, LeafLowering, Scope, SlotsView};
use crate::fresh::{
    fresh, fresh_maybe, fresh_since, freshening, group_owned, law_leaf_lowering_is_fresh, owned,
};
use crate::fresh_calls::law_variant_comprehension_is_fresh;
use crate::ir::texts;
use crate::records::{
    base_pointer, called_variant, constructed_variant, ctor_payload, filled_record,
    lemma_ctor_payload_smaller, payload_fields, plain_value, record_around, schema_value,
    tuple_variant, typed_value, variant_items, variant_list, variant_record, FieldSlot, RecordBody,
    RecordEnv, RecordLowering,
};
use crate::types::{Schema, TypeRepr};
use crate::variant::{is_variant_list, is_variant_type, variant_named, variant_shape};

verus! {

broadcast use group_owned;

/// Every typed lowering has slots of its own.
pub open spec fn freshening_records<L: RecordLowering>(low: L) -> bool {
    &&& freshening(low)
    &&& forall|
        kind: RecordBody,
        schema: Schema,
        value: Node,
        record: u32,
        range: TokenRange,
        scope: Scope<'_>,
        at: SlotsView,
    |
        fresh(at, #[trigger] low.record_body(kind, schema, value, record, range, scope, at))
    &&& forall|schema: Schema, index: int, value: Node, scope: Scope<'_>, at: SlotsView|
        fresh(at, #[trigger] low.field_value(schema, index, value, scope, at))
    &&& forall|expected: TypeRepr, value: Node, scope: Scope<'_>, at: SlotsView|
        fresh(at, #[trigger] low.typed_ternary(expected, value, scope, at))
    &&& forall|element: TypeRepr, value: Node, scope: Scope<'_>, at: SlotsView|
        fresh_maybe(at, #[trigger] low.variant_list_call(element, value, scope, at))
}

/// The lowering of leaf expressions has slots of its own with records too.
pub proof fn law_leaf_record_lowering_is_fresh()
    ensures
        freshening_records(LeafLowering),
{
    law_leaf_lowering_is_fresh();
}

proof fn lemma_base_pointer_owned(
    in_scratch: bool,
    record: u32,
    range: TokenRange,
    a: SlotsView,
    b: SlotsView,
)
    ensures
        owned(base_pointer(in_scratch, record, range), a, b),
{
}

/// A variant record has the slots of its payload.
pub proof fn law_variant_record_is_fresh(
    expected: TypeRepr,
    variant: Seq<char>,
    tag: u8,
    payload: Option<(TypeRepr, FragmentView)>,
    in_scratch: bool,
    range: TokenRange,
    at: SlotsView,
)
    requires
        payload matches Some((_, f)) ==> fresh_since(at, at, f),
    ensures
        fresh(at, variant_record(expected, variant, tag, payload, in_scratch, range, at)),
{
}

proof fn lemma_filled_record_is_fresh<L: RecordLowering>(
    env: RecordEnv<'_, L>,
    kind: RecordBody,
    schema: Schema,
    value: Node,
    range: TokenRange,
    scope: Scope<'_>,
    at: SlotsView,
)
    requires
        freshening_records(*env.low),
    ensures
        fresh(at, filled_record(env, kind, schema, value, range, scope, at)),
{
    match filled_record(env, kind, schema, value, range, scope, at) {
        Err(_) => {},
        Ok(f) => {
            lemma_base_pointer_owned(env.in_scratch, at.records, range, at, f.slots);
        },
    }
}

/// A value of a record type has slots of its own.
pub proof fn law_schema_value_is_fresh<L: RecordLowering>(
    env: RecordEnv<'_, L>,
    schema: Schema,
    value: Node,
    range: TokenRange,
    scope: Scope<'_>,
    at: SlotsView,
)
    requires
        freshening_records(*env.low),
    ensures
        fresh(at, schema_value(env, schema, value, range, scope, at)),
{
    lemma_filled_record_is_fresh(env, RecordBody::Declared, schema, value, range, scope, at);
    lemma_filled_record_is_fresh(env, RecordBody::Plain, schema, value, range, scope, at);
    lemma_filled_record_is_fresh(env, RecordBody::Tuple, schema, value, range, scope, at);
}

proof fn lemma_payload_fields_are_fresh<L: RecordLowering>(
    env: RecordEnv<'_, L>,
    schema: Schema,
    slots: Seq<FieldSlot>,
    args: Seq<CallArg>,
    record: u32,
    scope: Scope<'_>,
    at: SlotsView,
)
    requires
        freshening_records(*env.low),
    ensures
        fresh(at, payload_fields(env, schema, slots, args, record, scope, at)),
    decreases args.len(),
{
    if args.len() > 0 {
        lemma_payload_fields_are_fresh(env, schema, slots, args.drop_last(), record, scope, at);
    }
}

proof fn lemma_tuple_variant_is_fresh<L: RecordLowering>(
    env: RecordEnv<'_, L>,
    expected: TypeRepr,
    variant: Seq<char>,
    tag: u8,
    ty: TypeRepr,
    args: Seq<CallArg>,
    range: TokenRange,
    scope: Scope<'_>,
    at: SlotsView,
)
    requires
        freshening_records(*env.low),
    ensures
        fresh(at, tuple_variant(env, expected, variant, tag, ty, args, range, scope, at)),
{
    match ty {
        TypeRepr::Schema { schema } => match env.low.layout(*schema) {
            Err(_) => {},
            Ok(layout) => {
                let inner = at.after_record();
                lemma_payload_fields_are_fresh(
                    env,
                    *schema,
                    layout.fields,
                    args,
                    at.records,
                    scope,
                    inner,
                );
                match payload_fields(
                    env,
                    *schema,
                    layout.fields,
                    args,
                    at.records,
                    scope,
                    inner,
                ) {
                    Err(_) => {},
                    Ok(body) => {
                        lemma_base_pointer_owned(env.in_scratch, at.records, range, at, body.slots);
                    },
                }
            },
        },
        _ => {},
    }
}

proof fn lemma_record_around_is_fresh(
    expected: TypeRepr,
    variant: Seq<char>,
    tag: u8,
    ty: TypeRepr,
    payload: Result<FragmentView, ErrorView>,
    in_scratch: bool,
    range: TokenRange,
    at: SlotsView,
)
    requires
        fresh(at, payload),
    ensures
        fresh(
            at,
            record_around(expected, variant, tag, ty, payload, in_scratch, range, at),
        ),
{
}

proof fn lemma_called_variant_is_fresh<L: RecordLowering>(
    env: RecordEnv<'_, L>,
    expected: TypeRepr,
    variant: Seq<char>,
    args: Seq<CallArg>,
    range: TokenRange,
    scope: Scope<'_>,
    at: SlotsView,
)
    requires
        freshening_records(*env.low),
    ensures
        fresh(at, called_variant(env, expected, variant, args, range, scope, at)),
    decreases args, 2nat,
{
    match variant_shape(&expected, None, variant, range) {
        Err(_) => {},
        Ok(shape) => match shape.payload {
            None => {},
            Some(payload) => {
                if payload.key is Some {
                    if args.len() == 1 {
                        law_typed_value_is_fresh(env, *payload.ty, args[0].value, scope, at);
                        lemma_record_around_is_fresh(
                            expected,
                            variant,
                            shape.tag,
                            *payload.ty,
                            typed_value(env, *payload.ty, args[0].value, scope, at),
                            env.in_scratch,
                            range,
                            at,
                        );
                    }
                } else {
                    lemma_tuple_variant_is_fresh(
                        env,
                        expected,
                        variant,
                        shape.tag,
                        *payload.ty,
                        args,
                        range,
                        scope,
                        at,
                    );
                }
            },
        },
    }
}

proof fn lemma_constructed_variant_is_fresh<L: RecordLowering>(
    env: RecordEnv<'_, L>,
    expected: TypeRepr,
    path: Seq<Seq<char>>,
    variant: Seq<char>,
    body: Node,
    range: TokenRange,
    scope: Scope<'_>,
    at: SlotsView,
)
    requires
        freshening_records(*env.low),
    ensures
        fresh(
            at,
            constructed_variant(env, expected, path, variant, body, range, scope, at),
        ),
    decreases body, 2nat,
{
    match variant_shape(&expected, Some(path), variant, range) {
        Err(_) => {},
        Ok(shape) => match shape.payload {
            None => {},
            Some(payload) => match ctor_payload(body, payload, range) {
                Err(_) => {},
                Ok(node) => {
                    lemma_ctor_payload_smaller(body, payload, range);
                    law_typed_value_is_fresh(env, *payload.ty, node, scope, at);
                    lemma_record_around_is_fresh(
                        expected,
                        variant,
                        shape.tag,
                        *payload.ty,
                        typed_value(env, *payload.ty, node, scope, at),
                        env.in_scratch,
                        range,
                        at,
                    );
                },
            },
        },
    }
}

proof fn lemma_variant_items_are_fresh<L: RecordLowering>(
    env: RecordEnv<'_, L>,
    element: TypeRepr,
    items: Seq<Node>,
    scope: Scope<'_>,
    at: SlotsView,
)
    requires
        freshening_records(*env.low),
    ensures
        fresh(at, variant_items(env, element, items, scope, at)),
    decreases items, 0nat,
{
    if items.len() > 0 {
        lemma_variant_items_are_fresh(env, element, items.drop_last(), scope, at);
        match variant_items(env, element, items.drop_last(), scope, at) {
            Err(_) => {},
            Ok(pre) => {
                law_typed_value_is_fresh(env, element, items.last(), scope, pre.slots);
            },
        }
    }
}

/// A value lowered against a type has slots of its own.
pub proof fn law_typed_value_is_fresh<L: RecordLowering>(
    env: RecordEnv<'_, L>,
    expected: TypeRepr,
    value: Node,
    scope: Scope<'_>,
    at: SlotsView,
)
    requires
        freshening_records(*env.low),
    ensures
        fresh(at, typed_value(env, expected, value, scope, at)),
    decreases value, 1nat,
{
    match expected {
        TypeRepr::Schema { schema } => {
            law_schema_value_is_fresh(env, *schema, value, value.range, scope, at);
        },
        _ => {},
    }
    assert(fresh(at, plain_value(env, expected, value, scope, at)));
    match *value.expr {
        Expr::FnCall { path, args } => {
            if is_variant_list(expected) {
                assert(fresh_maybe(
                    at,
                    env.low.variant_list_call(*expected->element, value, scope, at),
                ));
            } else if is_variant_type(expected) {
                match variant_named(expected, path@, true) {
                    Some(name) => {
                        lemma_called_variant_is_fresh(
                            env,
                            expected,
                            name,
                            args@,
                            value.range,
                            scope,
                            at,
                        );
                    },
                    None => {},
                }
            }
        },
        Expr::Comprehension { element, id, iterable, condition } => {
            if is_variant_list(expected) {
                law_variant_comprehension_is_fresh(
                    *env.low,
                    *env.table,
                    *expected->element,
                    element,
                    id@,
                    iterable,
                    condition,
                    value.range,
                    scope,
                    at,
                );
            }
        },
        Expr::List(items) => {
            if is_variant_list(expected) {
                lemma_variant_items_are_fresh(env, *expected->element, items@, scope, at);
                assert(fresh(
                    at,
                    variant_list::<L>(
                        variant_items(env, *expected->element, items@, scope, at),
                        items@.len(),
                        value.range,
                    ),
                ));
            }
        },
        Expr::VariantCtor { enum_path, variant, body } => {
            if is_variant_type(expected) {
                lemma_constructed_variant_is_fresh(
                    env,
                    expected,
                    texts(enum_path@),
                    variant@,
                    body,
                    value.range,
                    scope,
                    at,
                );
            }
        },
        _ => {},
    }
}

} // verus!

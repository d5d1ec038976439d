//! Records, variants and lists of variants leave exactly one pointer.

use vstd::prelude::*;

use crate::ast::{CallArg, Expr, Node, TokenRange};
use crate::error::ErrorView;
use crate::fragment::{FragmentView, LeafLowering, Scope, SlotsView};
use crate::ir::{sop, texts, IrType};
use crate::neat_calls::law_variant_comprehension_is_neat;
use crate::records::{
    alloc_op, bare_variant, base_pointer, called_variant, constructed_variant, ctor_payload,
    filled_record, lemma_ctor_payload_smaller, payload_field, payload_fields, plain_value,
    record_around, schema_value, tuple_variant, typed_value, variant_items, variant_list,
    variant_record, FieldSlot, RecordBody, RecordEnv, RecordLowering,
};
use crate::stack::{
    group_tally, law_leaf_lowering_is_neat, neat, neat_lowering, neat_maybe, neat_outcome,
    neat_value, op_tally, passing, settles, tally,
};
use crate::types::{Schema, TypeRepr};
use crate::variant::{is_variant_list, is_variant_type, variant_named, variant_shape};

verus! {

broadcast use group_tally;

/// The outcome is an error, or stores that leave the stack as it was.
pub open spec fn neat_stores(r: Result<FragmentView, ErrorView>) -> bool {
    r matches Ok(f) ==> forall|labels: nat| settles(#[trigger] tally(f.ops, labels), 0, 0)
}

/// Every typed lowering is neat, and stores leave the stack as it was.
pub open spec fn neat_record_lowering<L: RecordLowering>(low: L) -> bool {
    &&& neat_lowering(low)
    &&& forall|
        kind: RecordBody,
        schema: Schema,
        value: Node,
        record: u32,
        range: TokenRange,
        scope: Scope<'_>,
        at: SlotsView,
    |
        neat_stores(#[trigger] low.record_body(kind, schema, value, record, range, scope, at))
    &&& forall|schema: Schema, index: int, value: Node, scope: Scope<'_>, at: SlotsView|
        neat_outcome(#[trigger] low.field_value(schema, index, value, scope, at))
    &&& forall|expected: TypeRepr, value: Node, scope: Scope<'_>, at: SlotsView|
        neat_outcome(#[trigger] low.typed_ternary(expected, value, scope, at))
    &&& forall|element: TypeRepr, value: Node, scope: Scope<'_>, at: SlotsView|
        neat_maybe(#[trigger] low.variant_list_call(element, value, scope, at))
}

/// The lowering of leaf expressions is neat with records too.
pub proof fn law_leaf_record_lowering_is_neat()
    ensures
        neat_record_lowering(LeafLowering),
{
    law_leaf_lowering_is_neat();
}

proof fn lemma_base_pointer(in_scratch: bool, record: u32, range: TokenRange, labels: nat)
    ensures
        tally(base_pointer(in_scratch, record, range), labels) == passing(0, 1),
{
    reveal_with_fuel(tally, 5);
    reveal_with_fuel(op_tally, 5);
}

/// A variant record leaves its pointer, in place of the payload if it has one.
pub proof fn law_variant_record_is_neat(
    expected: TypeRepr,
    variant: Seq<char>,
    tag: u8,
    payload: Option<(TypeRepr, FragmentView)>,
    in_scratch: bool,
    range: TokenRange,
    at: SlotsView,
)
    requires
        payload matches Some((_, f)) ==> neat(f),
    ensures
        neat_value(variant_record(expected, variant, tag, payload, in_scratch, range, at)),
{
}

proof fn lemma_filled_record_is_neat<L: RecordLowering>(
    env: RecordEnv<'_, L>,
    kind: RecordBody,
    schema: Schema,
    value: Node,
    range: TokenRange,
    scope: Scope<'_>,
    at: SlotsView,
)
    requires
        neat_record_lowering(*env.low),
    ensures
        neat_value(filled_record(env, kind, schema, value, range, scope, at)),
{
    match filled_record(env, kind, schema, value, range, scope, at) {
        Err(_) => {},
        Ok(f) => {
            let body = env.low.record_body(
                kind,
                schema,
                value,
                at.records,
                range,
                scope,
                at.after_record(),
            )->Ok_0;
            assert forall|labels: nat| settles(#[trigger] tally(f.ops, labels), 0, 1) by {
                assert(settles(tally(body.ops, labels), 0, 0));
                lemma_base_pointer(env.in_scratch, at.records, range, labels);
            }
        },
    }
}

/// A value of a record type leaves one value.
pub proof fn law_schema_value_is_neat<L: RecordLowering>(
    env: RecordEnv<'_, L>,
    schema: Schema,
    value: Node,
    range: TokenRange,
    scope: Scope<'_>,
    at: SlotsView,
)
    requires
        neat_record_lowering(*env.low),
    ensures
        neat_outcome(schema_value(env, schema, value, range, scope, at)),
{
    lemma_filled_record_is_neat(env, RecordBody::Declared, schema, value, range, scope, at);
    lemma_filled_record_is_neat(env, RecordBody::Plain, schema, value, range, scope, at);
    lemma_filled_record_is_neat(env, RecordBody::Tuple, schema, value, range, scope, at);
}

proof fn lemma_payload_fields_are_neat<L: RecordLowering>(
    env: RecordEnv<'_, L>,
    schema: Schema,
    slots: Seq<FieldSlot>,
    args: Seq<CallArg>,
    record: u32,
    scope: Scope<'_>,
    at: SlotsView,
)
    requires
        neat_record_lowering(*env.low),
    ensures
        neat_stores(payload_fields(env, schema, slots, args, record, scope, at)),
    decreases args.len(),
{
    if args.len() > 0 {
        lemma_payload_fields_are_neat(
            env,
            schema,
            slots,
            args.drop_last(),
            record,
            scope,
            at,
        );
        match payload_fields(env, schema, slots, args.drop_last(), record, scope, at) {
            Err(_) => {},
            Ok(pre) => {
                let index = args.len() - 1;
                let value = args.last().value;
                assert(neat_outcome(env.low.field_value(schema, index, value, scope, pre.slots)));
                assert(neat_stores(
                    payload_field(env, schema, slots[index], index, value, record, pre, scope),
                ));
            },
        }
    }
}

proof fn lemma_tuple_variant_is_neat<L: RecordLowering>(
    env: RecordEnv<'_, L>,
    expected: TypeRepr,
    variant: Seq<char>,
    tag: u8,
    ty: TypeRepr,
    args: Seq<CallArg>,
    range: TokenRange,
    scope: Scope<'_>,
    at: SlotsView,
)
    requires
        neat_record_lowering(*env.low),
    ensures
        neat_value(tuple_variant(env, expected, variant, tag, ty, args, range, scope, at)),
{
    match ty {
        TypeRepr::Schema { schema } => match env.low.layout(*schema) {
            Err(_) => {},
            Ok(layout) => {
                lemma_payload_fields_are_neat(
                    env,
                    *schema,
                    layout.fields,
                    args,
                    at.records,
                    scope,
                    at.after_record(),
                );
                match payload_fields(
                    env,
                    *schema,
                    layout.fields,
                    args,
                    at.records,
                    scope,
                    at.after_record(),
                ) {
                    Err(_) => {},
                    Ok(body) => {
                        let f = FragmentView {
                            ops: seq![
                                sop(
                                    alloc_op(
                                        env.in_scratch,
                                        at.records,
                                        layout.root_size,
                                        layout.root_align,
                                    ),
                                    range,
                                ),
                            ] + body.ops + base_pointer(env.in_scratch, at.records, range),
                            ty: Some(IrType::I32),
                            slots: body.slots,
                        };
                        assert forall|labels: nat| settles(
                            #[trigger] tally(f.ops, labels),
                            0,
                            1,
                        ) by {
                            assert(settles(tally(body.ops, labels), 0, 0));
                            lemma_base_pointer(env.in_scratch, at.records, range, labels);
                        }
                        assert(neat(f));
                        law_variant_record_is_neat(
                            expected,
                            variant,
                            tag,
                            Some((ty, f)),
                            env.in_scratch,
                            range,
                            at,
                        );
                    },
                }
            },
        },
        _ => {},
    }
}

proof fn lemma_record_around_is_neat(
    expected: TypeRepr,
    variant: Seq<char>,
    tag: u8,
    ty: TypeRepr,
    payload: Result<FragmentView, ErrorView>,
    in_scratch: bool,
    range: TokenRange,
    at: SlotsView,
)
    requires
        neat_outcome(payload),
    ensures
        neat_value(
            record_around(expected, variant, tag, ty, payload, in_scratch, range, at),
        ),
{
    match payload {
        Err(_) => {},
        Ok(f) => {
            law_variant_record_is_neat(
                expected,
                variant,
                tag,
                Some((ty, f)),
                in_scratch,
                range,
                at,
            );
        },
    }
}

proof fn lemma_called_variant_is_neat<L: RecordLowering>(
    env: RecordEnv<'_, L>,
    expected: TypeRepr,
    variant: Seq<char>,
    args: Seq<CallArg>,
    range: TokenRange,
    scope: Scope<'_>,
    at: SlotsView,
)
    requires
        neat_record_lowering(*env.low),
    ensures
        neat_value(called_variant(env, expected, variant, args, range, scope, at)),
    decreases args, 2nat,
{
    match variant_shape(&expected, None, variant, range) {
        Err(_) => {},
        Ok(shape) => match shape.payload {
            None => {
                law_variant_record_is_neat(
                    expected,
                    variant,
                    shape.tag,
                    None,
                    env.in_scratch,
                    range,
                    at,
                );
            },
            Some(payload) => {
                if payload.key is Some {
                    if args.len() == 1 {
                        law_typed_value_is_neat(env, *payload.ty, args[0].value, scope, at);
                        lemma_record_around_is_neat(
                            expected,
                            variant,
                            shape.tag,
                            *payload.ty,
                            typed_value(env, *payload.ty, args[0].value, scope, at),
                            env.in_scratch,
                            range,
                            at,
                        );
                    }
                } else {
                    lemma_tuple_variant_is_neat(
                        env,
                        expected,
                        variant,
                        shape.tag,
                        *payload.ty,
                        args,
                        range,
                        scope,
                        at,
                    );
                }
            },
        },
    }
}

proof fn lemma_constructed_variant_is_neat<L: RecordLowering>(
    env: RecordEnv<'_, L>,
    expected: TypeRepr,
    path: Seq<Seq<char>>,
    variant: Seq<char>,
    body: Node,
    range: TokenRange,
    scope: Scope<'_>,
    at: SlotsView,
)
    requires
        neat_record_lowering(*env.low),
    ensures
        neat_value(
            constructed_variant(env, expected, path, variant, body, range, scope, at),
        ),
    decreases body, 2nat,
{
    match variant_shape(&expected, Some(path), variant, range) {
        Err(_) => {},
        Ok(shape) => match shape.payload {
            None => {
                law_variant_record_is_neat(
                    expected,
                    variant,
                    shape.tag,
                    None,
                    env.in_scratch,
                    range,
                    at,
                );
            },
            Some(payload) => match ctor_payload(body, payload, range) {
                Err(_) => {},
                Ok(node) => {
                    lemma_ctor_payload_smaller(body, payload, range);
                    law_typed_value_is_neat(env, *payload.ty, node, scope, at);
                    lemma_record_around_is_neat(
                        expected,
                        variant,
                        shape.tag,
                        *payload.ty,
                        typed_value(env, *payload.ty, node, scope, at),
                        env.in_scratch,
                        range,
                        at,
                    );
                },
            },
        },
    }
}

proof fn lemma_variant_items_are_neat<L: RecordLowering>(
    env: RecordEnv<'_, L>,
    element: TypeRepr,
    items: Seq<Node>,
    scope: Scope<'_>,
    at: SlotsView,
)
    requires
        neat_record_lowering(*env.low),
    ensures
        variant_items(env, element, items, scope, at) matches Ok(f) ==> forall|labels: nat|
            settles(#[trigger] tally(f.ops, labels), 0, items.len() as int),
    decreases items, 0nat,
{
    if items.len() > 0 {
        let rest = items.drop_last();
        lemma_variant_items_are_neat(env, element, rest, scope, at);
        match variant_items(env, element, rest, scope, at) {
            Err(_) => {},
            Ok(pre) => {
                law_typed_value_is_neat(env, element, items.last(), scope, pre.slots);
                match (
                    typed_value(env, element, items.last(), scope, pre.slots),
                    variant_items(env, element, items, scope, at),
                ) {
                    (Ok(v), Ok(f)) => {
                        assert forall|labels: nat| settles(
                            #[trigger] tally(f.ops, labels),
                            0,
                            items.len() as int,
                        ) by {
                            assert(settles(tally(pre.ops, labels), 0, rest.len() as int));
                            assert(settles(tally(v.ops, labels), 0, 1));
                        }
                    },
                    _ => {},
                }
            },
        }
    }
}

/// A value lowered against a type leaves one value.
pub proof fn law_typed_value_is_neat<L: RecordLowering>(
    env: RecordEnv<'_, L>,
    expected: TypeRepr,
    value: Node,
    scope: Scope<'_>,
    at: SlotsView,
)
    requires
        neat_record_lowering(*env.low),
    ensures
        neat_outcome(typed_value(env, expected, value, scope, at)),
    decreases value, 1nat,
{
    match expected {
        TypeRepr::Schema { schema } => {
            law_schema_value_is_neat(env, *schema, value, value.range, scope, at);
        },
        _ => {},
    }
    assert(neat_outcome(plain_value(env, expected, value, scope, at)));
    assert(neat_outcome(env.low.lowered(value, scope, at)));
    match *value.expr {
        Expr::FnCall { path, args } => {
            if is_variant_list(expected) {
                assert(neat_maybe(
                    env.low.variant_list_call(*expected->element, value, scope, at),
                ));
            } else if is_variant_type(expected) {
                match variant_named(expected, path@, true) {
                    Some(name) => {
                        lemma_called_variant_is_neat(
                            env,
                            expected,
                            name,
                            args@,
                            value.range,
                            scope,
                            at,
                        );
                    },
                    None => {},
                }
            }
        },
        Expr::Comprehension { element, id, iterable, condition } => {
            if is_variant_list(expected) {
                law_variant_comprehension_is_neat(
                    *env.low,
                    *env.table,
                    *expected->element,
                    element,
                    id@,
                    iterable,
                    condition,
                    value.range,
                    scope,
                    at,
                );
            }
        },
        Expr::List(items) => {
            if is_variant_list(expected) {
                lemma_variant_items_are_neat(env, *expected->element, items@, scope, at);
                lemma_variant_list_is_neat::<L>(
                    variant_items(env, *expected->element, items@, scope, at),
                    items@.len(),
                    value.range,
                );
            }
        },
        Expr::VariantCtor { enum_path, variant, body } => {
            if is_variant_type(expected) {
                lemma_constructed_variant_is_neat(
                    env,
                    expected,
                    texts(enum_path@),
                    variant@,
                    body,
                    value.range,
                    scope,
                    at,
                );
            }
        },
        Expr::Variable(path) => {
            if is_variant_type(expected) {
                match variant_named(expected, path@, false) {
                    Some(name) => {
                        match variant_shape(&expected, None, name, value.range) {
                            Ok(shape) => {
                                law_variant_record_is_neat(
                                    expected,
                                    name,
                                    shape.tag,
                                    None,
                                    env.in_scratch,
                                    value.range,
                                    at,
                                );
                            },
                            Err(_) => {},
                        }
                        assert(neat_outcome(
                            bare_variant(expected, name, env.in_scratch, value.range, at),
                        ));
                    },
                    None => {},
                }
            }
        },
        _ => {},
    }
}

proof fn lemma_variant_list_is_neat<L: RecordLowering>(
    items: Result<FragmentView, ErrorView>,
    n: nat,
    range: TokenRange,
)
    requires
        items matches Ok(f) ==> forall|labels: nat|
            settles(#[trigger] tally(f.ops, labels), 0, n as int),
    ensures
        neat_outcome(variant_list::<L>(items, n, range)),
{
    match (items, variant_list::<L>(items, n, range)) {
        (Ok(all), Ok(f)) => {
            assert forall|labels: nat| settles(#[trigger] tally(f.ops, labels), 0, 1) by {
                assert(settles(tally(all.ops, labels), 0, n as int));
            }
        },
        _ => {},
    }
}

} // verus!

//! What type references mean, and the record types that are made of them.

use vstd::prelude::*;

use crate::arms::{definite_scalar, scalar_pattern};
use crate::ast::{Node, TokenKey, TypeNode};
use crate::canonical::{
    builtin_head, canonical, canonical_all, canonical_base, param_fields, plain_reference,
    removed_head, table_index, MainParam, MainSignature, NoSchemas, SchemaTable, TypeResolver,
};
use crate::dict_plan::ClosurePlanner;
use crate::entry::{entry_planned, EntryPlan, ReturnShape};
use crate::field_types::{scalar_of, ScalarType};
use crate::ir::IrType;
use crate::meaning::width_of;
use crate::meaning_records::{lemma_first_field, lemma_positional, names_field};
use crate::records::record_ir_type;
use crate::reference::walk_brand;
use crate::shape::{ir_type_of, native_ir_type, scalar_named, view_ir_type};
use crate::text::{decimal_chars, law_decimal_reads_back, number_of};
use crate::types::{schema_view, type_view, Schema, TypeRepr, TypeView};
use crate::variant::{law_payload_offset, payload_offset, slot_layout};
use crate::workspace::SchemaDef;

verus! {

/// The type is the one that the reference writes down: a mark makes it optional, the
/// head names it, and its parts are those that the arguments write down.
pub open spec fn as_written(t: TypeNode, v: TypeView) -> bool
    decreases v, 1nat,
{
    if t.is_optional {
        v matches TypeView::Option { inner } && headed_as(t, *inner)
    } else {
        headed_as(t, v)
    }
}

pub open spec fn headed_as(t: TypeNode, v: TypeView) -> bool
    decreases v, 0nat,
{
    let head = t.path@[0]@;
    &&& t.path@.len() == 1
    &&& match v {
        TypeView::Int => head == "Int"@ && t.generics@.len() == 0,
        TypeView::Float => head == "Float"@ && t.generics@.len() == 0,
        TypeView::Bool => head == "Bool"@ && t.generics@.len() == 0,
        TypeView::String => head == "String"@ && t.generics@.len() == 0,
        TypeView::List { element } => head == "List"@ && t.generics@.len() == 1 && as_written(
            t.generics@[0],
            *element,
        ),
        TypeView::Option { inner } => head == "Option"@ && t.generics@.len() == 1 && as_written(
            t.generics@[0],
            *inner,
        ),
        TypeView::Result { ok, err } => head == "Result"@ && t.generics@.len() == 2 && as_written(
            t.generics@[0],
            *ok,
        ) && as_written(t.generics@[1], *err),
        TypeView::Schema { schema } => {
            &&& head == "Tuple"@
            &&& schema.is_tuple
            &&& schema.fields.len() == t.generics@.len()
            &&& forall|i: int|
                0 <= i < schema.fields.len() ==> number_of((#[trigger] schema.fields[i]).name)
                    == i && as_written(t.generics@[i], schema.fields[i].ty)
        },
        _ => false,
    }
}

/// A reference to builtin types means what it writes down.
pub proof fn law_builtin_reference_means_what_it_says(t: TypeNode)
    ensures
        canonical(NoSchemas, t) matches Some(v) ==> as_written(t, v),
    decreases t, 1nat,
{
    if plain_reference(t) && canonical_base(NoSchemas, t) is Some {
        let n = t.generics@.len();
        let base = canonical_base(NoSchemas, t)->0;
        if n > 0 {
            assert(decreases_to!(t => t.generics));
            assert(decreases_to!(t.generics => t.generics@));
            assert(decreases_to!(t.generics@ => t.generics@[0]));
            law_builtin_reference_means_what_it_says(t.generics@[0]);
        }
        if n == 2 {
            assert(decreases_to!(t.generics@ => t.generics@[1]));
            law_builtin_reference_means_what_it_says(t.generics@[1]);
        }
        if let TypeView::Schema { schema } = base {
            lemma_tuple_elements(t.generics@);
            let elements = canonical_all(NoSchemas, t.generics@)->0;
            assert forall|i: int| 0 <= i < schema.fields.len() implies number_of(
                (#[trigger] schema.fields[i]).name,
            ) == i && as_written(t.generics@[i], schema.fields[i].ty) by {
                law_decimal_reads_back(i as nat);
                assert(schema.fields[i].ty == elements[i]);
            }
        }
        assert(headed_as(t, base));
    }
}

proof fn lemma_tuple_elements(ts: Seq<TypeNode>)
    ensures
        canonical_all(NoSchemas, ts) matches Some(vs) ==> vs.len() == ts.len() && forall|i: int|
            0 <= i < ts.len() ==> as_written(#[trigger] ts[i], vs[i]),
    decreases ts, 0nat,
{
    if ts.len() > 0 {
        let before = ts.drop_last();
        lemma_tuple_elements(before);
        law_builtin_reference_means_what_it_says(ts.last());
        if let Some(vs) = canonical_all(NoSchemas, ts) {
            assert forall|i: int| 0 <= i < ts.len() implies as_written(#[trigger] ts[i], vs[i]) by {
                if i < before.len() {
                    assert(before[i] == ts[i]);
                }
            }
        }
    }
}

/// The record of the parameters has one field for each parameter, in their order,
/// with the name of the parameter and the type that its annotation means. It is there
/// where each annotation means a type.
pub proof fn law_parameter_record_mirrors_the_parameters<R: TypeResolver>(
    resolver: R,
    params: Seq<MainParam>,
)
    ensures
        param_fields(resolver, params) is Ok <==> forall|i: int|
            0 <= i < params.len() ==> canonical(resolver, (#[trigger] params[i]).type_node) is Some,
        param_fields(resolver, params) matches Ok(fields) ==> {
            &&& fields.len() == params.len()
            &&& forall|i: int|
                0 <= i < params.len() ==> (#[trigger] fields[i]).name == params[i].name@
                    && canonical(resolver, params[i].type_node) == Some(fields[i].ty)
        },
    decreases params.len(),
{
    if params.len() > 0 {
        let before = params.drop_last();
        law_parameter_record_mirrors_the_parameters(resolver, before);
        assert forall|i: int| 0 <= i < before.len() implies before[i] == #[trigger] params[i] by {}
        assert(params[params.len() - 1] == params.last());
        if param_fields(resolver, before) is Err {
            let i = choose|i: int|
                0 <= i < before.len() && !(canonical(
                    resolver,
                    (#[trigger] before[i]).type_node,
                ) is Some);
            assert(params[i] == before[i]);
        }
    }
}

/// The instruction type of a host signature is the one of the type that the reference
/// means, for scalars and for lists of scalars.
pub proof fn law_host_types_agree(t: TypeNode)
    requires
        canonical(NoSchemas, t) is Some,
        !t.is_optional,
        t.generics@.len() > 0 ==> !t.generics@[0].is_optional,
        ({
            let v = canonical(NoSchemas, t)->0;
            let e = match v {
                TypeView::List { element } => *element,
                other => other,
            };
            e is Int || e is Float || e is Bool || e is String
        }),
    ensures
        native_ir_type(t) == view_ir_type(canonical(NoSchemas, t)->0),
{
    reveal_strlit("Int");
    reveal_strlit("Float");
    reveal_strlit("Bool");
    reveal_strlit("String");
    reveal_strlit("List");
    assert("Int"@.len() == 3 && "Float"@.len() == 5 && "Bool"@.len() == 4 && "String"@.len() == 6);
    assert("List"@[0] == 'L' && "Bool"@[0] == 'B');
    law_builtin_reference_means_what_it_says(t);
    let v = canonical(NoSchemas, t)->0;
    assert(headed_as(t, v));
    assert(t.path@.last() == t.path@[0]);
    if let TypeView::List { element } = v {
        assert(headed_as(t.generics@[0], *element));
        assert(t.generics@[0].path@.last() == t.generics@[0].path@[0]);
    }
}

/// The plan of an entry mirrors its signature: the parameter record has one field for
/// each parameter, with its name and with the type that its annotation means, and an
/// entry that returns a value has a record of one field of the type that is declared
/// for it.
pub proof fn law_entry_plan_mirrors_the_signature<P: ClosurePlanner>(
    planner: P,
    types: SchemaTable<'_>,
    sig: MainSignature,
    root: Node,
    plan: EntryPlan,
)
    requires
        entry_planned(planner, types, sig, root, Ok(plan)),
    ensures
        ({
            let fields = schema_view(plan.main_schema).fields;
            &&& fields.len() == sig.params@.len()
            &&& forall|i: int|
                0 <= i < fields.len() ==> (#[trigger] fields[i]).name == sig.params@[i].name@
                    && canonical(types, sig.params@[i].type_node) == Some(fields[i].ty)
        }),
        plan.shape is Value ==> {
            let fields = schema_view(plan.return_schema).fields;
            &&& fields.len() == 1
            &&& sig.return_type matches Some(t) && canonical(types, t) == Some(fields[0].ty)
        },
        plan.shape matches ReturnShape::Fields(shown) ==> schema_view(plan.return_schema)
            == shown@.schema,
        plan.shape is Record || plan.shape is Tuple ==> plan.root == root,
{
    law_parameter_record_mirrors_the_parameters(types, sig.params@);
}

/// The segments from `from` on name fields that lead from record to record, and at the
/// end to the record type.
pub open spec fn walks_to(schema: Schema, path: Seq<TokenKey>, from: int, last: Schema) -> bool
    decreases path.len() - from,
{
    if from >= path.len() {
        schema == last
    } else {
        exists|i: int| #[trigger]
            names_field(schema, path[from], i) && (schema.fields@[i].ty matches TypeRepr::Schema {
                schema: inner,
            } && walks_to(*inner, path, from + 1, last))
    }
}

/// The brand of a field path is the name of the record type that it leads to.
pub proof fn law_brand_is_the_record_walked_to(
    schema: Schema,
    path: Seq<TokenKey>,
    from: int,
    last: Schema,
)
    requires
        0 <= from <= path.len(),
        walks_to(schema, path, from, last),
    ensures
        walk_brand(Some(schema), path, from) == Some(last.name@),
    decreases path.len() - from,
{
    if from < path.len() {
        let i = choose|i: int| #[trigger]
            names_field(schema, path[from], i) && (schema.fields@[i].ty matches TypeRepr::Schema {
                schema: inner,
            } && walks_to(*inner, path, from + 1, last));
        match path[from] {
            TokenKey::String(name, _, _) => {
                lemma_first_field(schema.fields@, name@, i, 0);
            },
            _ => {
                lemma_positional(schema.fields@, i);
                lemma_first_field(schema.fields@, decimal_chars(i as nat), i, 0);
            },
        }
        if let TypeRepr::Schema { schema: inner } = schema.fields@[i].ty {
            law_brand_is_the_record_walked_to(*inner, path, from + 1, last);
        }
    }
}

/// A reference to a declared name means the type of its first declaration.
pub proof fn law_declared_name_means_its_first_declaration(
    types: SchemaTable<'_>,
    t: TypeNode,
    k: int,
)
    requires
        plain_reference(t),
        t.generics@.len() == 0,
        !removed_head(t.path@[0]@),
        !builtin_head(t.path@[0]@),
        0 <= k < types.entries@.len(),
        types.entries@[k].0@ == t.path@[0]@,
        forall|j: int| 0 <= j < k ==> (#[trigger] types.entries@[j]).0@ != t.path@[0]@,
        types.entries@[k].1.shape is Ok,
    ensures
        ({
            let ty = type_view(types.entries@[k].1.shape->Ok_0);
            canonical(types, t) == Some(
                if t.is_optional {
                    TypeView::Option { inner: Box::new(ty) }
                } else {
                    ty
                },
            )
        }),
{
    lemma_first_declaration(types.entries@, t.path@[0]@, 0, k);
}

proof fn lemma_first_declaration(
    entries: Seq<(String, &SchemaDef)>,
    name: Seq<char>,
    from: int,
    k: int,
)
    requires
        0 <= from <= k < entries.len(),
        entries[k].0@ == name,
        forall|j: int| from <= j < k ==> (#[trigger] entries[j]).0@ != name,
    ensures
        table_index(entries, name, from) == Some(k),
    decreases k - from,
{
    if from < k {
        assert(entries[from].0@ != name);
        lemma_first_declaration(entries, name, from + 1, k);
    }
}

/// The name that a program sees for a scalar type is the one that signatures, patterns
/// and annotations know it by, and different scalar types have different names.
pub proof fn law_scalar_types_have_one_name(ty: IrType, other: IrType, scalar: ScalarType)
    requires
        definite_scalar(ty),
        definite_scalar(other),
    ensures
        ty.user_text() matches Some(name) && scalar_named(name) == Some(ty) && scalar_pattern(name)
            == Some(ty) && builtin_head(name),
        ty.user_text() == other.user_text() ==> ty == other,
        ir_type_of(scalar.spec_repr()) matches Some(t) && t.user_text() == Some(scalar.text())
            && scalar_of(t) == Some(scalar),
{
    reveal_strlit("Int");
    reveal_strlit("Float");
    reveal_strlit("Bool");
    reveal_strlit("String");
    assert("Int"@.len() == 3 && "Float"@.len() == 5 && "Bool"@.len() == 4 && "String"@.len() == 6);
}

/// A field of a type takes as many bytes as its value has, and begins at a multiple of
/// that number; behind the tag of a variant it begins at the first one.
pub proof fn law_slot_is_as_wide_as_its_value(t: TypeRepr)
    requires
        record_ir_type(t) is Some,
        !(t is Unit),
    ensures
        slot_layout(t) matches Some((size, align)) && size == align && size == width_of(
            record_ir_type(t)->0,
        ),
        payload_offset(t) matches Some(offset) && offset == width_of(record_ir_type(t)->0),
{
    law_payload_offset(t);
}

} // verus!

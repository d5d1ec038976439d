//! Canonical types: the shapes of values that cross the host boundary.

use vstd::prelude::*;

use crate::text::{join2, join3};

verus! {

/// A canonical type.
#[derive(Debug, PartialEq, Eq)]
pub enum TypeRepr {
    Int,
    Float,
    Bool,
    Unit,
    String,
    List { element: Box<TypeRepr> },
    Option { inner: Box<TypeRepr> },
    Result { ok: Box<TypeRepr>, err: Box<TypeRepr> },
    Schema { schema: Box<Schema> },
    Enum { name: String, variants: Vec<EnumVariant> },
    Closure,
}

/// A record type. A tuple has positional field names.
#[derive(Debug, PartialEq, Eq)]
pub struct Schema {
    pub name: String,
    pub fields: Vec<Field>,
    pub is_tuple: bool,
}

/// A field of a record type.
#[derive(Debug, PartialEq, Eq)]
pub struct Field {
    pub name: String,
    pub ty: TypeRepr,
}

/// A variant of an enum; the payload is the record type of its fields and is
/// absent for a unit variant.
#[derive(Debug, PartialEq, Eq)]
pub struct EnumVariant {
    pub name: String,
    pub tag: u8,
    pub payload: Option<Box<TypeRepr>>,
}

/// The mathematical value of a [`TypeRepr`].
pub ghost enum TypeView {
    Int,
    Float,
    Bool,
    Unit,
    String,
    List { element: Box<TypeView> },
    Option { inner: Box<TypeView> },
    Result { ok: Box<TypeView>, err: Box<TypeView> },
    Schema { schema: SchemaView },
    Enum { name: Seq<char>, variants: Seq<VariantView> },
    Closure,
}

/// The mathematical value of a [`Schema`].
pub ghost struct SchemaView {
    pub name: Seq<char>,
    pub fields: Seq<FieldView>,
    pub is_tuple: bool,
}

/// The mathematical value of a [`Field`].
pub ghost struct FieldView {
    pub name: Seq<char>,
    pub ty: TypeView,
}

/// The mathematical value of an [`EnumVariant`].
pub ghost struct VariantView {
    pub name: Seq<char>,
    pub tag: u8,
    pub payload: Option<TypeView>,
}

/// The mathematical value of a type.
pub open spec fn type_view(t: TypeRepr) -> TypeView
    decreases t, 0nat,
{
    match t {
        TypeRepr::Int => TypeView::Int,
        TypeRepr::Float => TypeView::Float,
        TypeRepr::Bool => TypeView::Bool,
        TypeRepr::Unit => TypeView::Unit,
        TypeRepr::String => TypeView::String,
        TypeRepr::List { element } => TypeView::List { element: Box::new(type_view(*element)) },
        TypeRepr::Option { inner } => TypeView::Option { inner: Box::new(type_view(*inner)) },
        TypeRepr::Result { ok, err } => TypeView::Result {
            ok: Box::new(type_view(*ok)),
            err: Box::new(type_view(*err)),
        },
        TypeRepr::Schema { schema } => TypeView::Schema { schema: schema_view(*schema) },
        TypeRepr::Enum { name, variants } => TypeView::Enum {
            name: name@,
            variants: variants_view(variants@),
        },
        TypeRepr::Closure => TypeView::Closure,
    }
}

/// The mathematical value of a record type.
pub open spec fn schema_view(s: Schema) -> SchemaView
    decreases s, 0nat,
{
    SchemaView { name: s.name@, fields: fields_view(s.fields@), is_tuple: s.is_tuple }
}

/// The mathematical value of a field list.
pub open spec fn fields_view(fields: Seq<Field>) -> Seq<FieldView>
    decreases fields, 0nat,
{
    if fields.len() == 0 {
        Seq::empty()
    } else {
        fields_view(fields.drop_last()).push(field_view(fields.last()))
    }
}

/// The mathematical value of a field.
pub open spec fn field_view(f: Field) -> FieldView
    decreases f, 0nat,
{
    FieldView { name: f.name@, ty: type_view(f.ty) }
}

/// The mathematical value of a variant list.
pub open spec fn variants_view(variants: Seq<EnumVariant>) -> Seq<VariantView>
    decreases variants, 0nat,
{
    if variants.len() == 0 {
        Seq::empty()
    } else {
        variants_view(variants.drop_last()).push(variant_view(variants.last()))
    }
}

/// The mathematical value of a variant.
pub open spec fn variant_view(v: EnumVariant) -> VariantView
    decreases v, 0nat,
{
    VariantView {
        name: v.name@,
        tag: v.tag,
        payload: match v.payload {
            Some(p) => Some(type_view(*p)),
            None => None,
        },
    }
}

/// A copy of a type.
pub fn copy_type(t: &TypeRepr) -> (r: TypeRepr)
    ensures
        type_view(r) == type_view(*t),
    decreases t, 1nat,
{
    match t {
        TypeRepr::Int => TypeRepr::Int,
        TypeRepr::Float => TypeRepr::Float,
        TypeRepr::Bool => TypeRepr::Bool,
        TypeRepr::Unit => TypeRepr::Unit,
        TypeRepr::String => TypeRepr::String,
        TypeRepr::List { element } => TypeRepr::List { element: Box::new(copy_type(element)) },
        TypeRepr::Option { inner } => TypeRepr::Option { inner: Box::new(copy_type(inner)) },
        TypeRepr::Result { ok, err } => TypeRepr::Result {
            ok: Box::new(copy_type(ok)),
            err: Box::new(copy_type(err)),
        },
        TypeRepr::Schema { schema } => TypeRepr::Schema { schema: Box::new(copy_schema(schema)) },
        TypeRepr::Enum { name, variants } => {
            let mut out: Vec<EnumVariant> = Vec::new();
            let mut i: usize = 0;
            while i < variants.len()
                invariant
                    i <= variants.len(),
                    *t is Enum,
                    t->variants == *variants,
                    variants_view(out@) == variants_view(variants@.take(i as int)),
                decreases variants.len() - i,
            {
                let v = &variants[i];
                assert(decreases_to!(*t => t->variants));
                assert(decreases_to!(*variants => variants@));
                assert(decreases_to!(variants@ => variants@[i as int]));
                assert(decreases_to!(*v => v.payload));
                let payload: Option<Box<TypeRepr>> = match &v.payload {
                    Some(p) => Some(Box::new(copy_type(p))),
                    None => None,
                };
                let ghost before = out@;
                out.push(EnumVariant { name: v.name.clone(), tag: v.tag, payload });
                assert(out@.drop_last() =~= before);
                assert(variants@.take(i + 1).drop_last() =~= variants@.take(i as int));
                assert(variant_view(out@.last()) == variant_view(*v));
                i += 1;
            }
            assert(variants@.take(variants@.len() as int) =~= variants@);
            TypeRepr::Enum { name: name.clone(), variants: out }
        },
        TypeRepr::Closure => TypeRepr::Closure,
    }
}

/// A copy of a record type.
pub fn copy_schema(s: &Schema) -> (r: Schema)
    ensures
        schema_view(r) == schema_view(*s),
    decreases s, 0nat,
{
    let mut out: Vec<Field> = Vec::new();
    let mut i: usize = 0;
    while i < s.fields.len()
        invariant
            i <= s.fields.len(),
            fields_view(out@) == fields_view(s.fields@.take(i as int)),
        decreases s.fields.len() - i,
    {
        let f = &s.fields[i];
        let ghost before = out@;
        out.push(Field { name: f.name.clone(), ty: copy_type(&f.ty) });
        assert(out@.drop_last() =~= before);
        assert(s.fields@.take(i + 1).drop_last() =~= s.fields@.take(i as int));
        assert(field_view(out@.last()) == field_view(*f));
        i += 1;
    }
    assert(s.fields@.take(s.fields@.len() as int) =~= s.fields@);
    Schema { name: s.name.clone(), fields: out, is_tuple: s.is_tuple }
}

/// Fields are viewed one by one.
pub proof fn lemma_fields_view(fields: Seq<Field>)
    ensures
        fields_view(fields).len() == fields.len(),
        forall|i: int|
            0 <= i < fields.len() ==> #[trigger] fields_view(fields)[i] == field_view(fields[i]),
    decreases fields.len(),
{
    if fields.len() > 0 {
        lemma_fields_view(fields.drop_last());
    }
}

/// Variants are viewed one by one.
pub proof fn lemma_variants_view(variants: Seq<EnumVariant>)
    ensures
        variants_view(variants).len() == variants.len(),
        forall|i: int|
            0 <= i < variants.len() ==> #[trigger] variants_view(variants)[i] == variant_view(
                variants[i],
            ),
    decreases variants.len(),
{
    if variants.len() > 0 {
        lemma_variants_view(variants.drop_last());
    }
}

/// Compares two types.
pub fn same_type(a: &TypeRepr, b: &TypeRepr) -> (r: bool)
    ensures
        r == (type_view(*a) == type_view(*b)),
    decreases a, 1nat,
{
    match (a, b) {
        (TypeRepr::Int, TypeRepr::Int) => true,
        (TypeRepr::Float, TypeRepr::Float) => true,
        (TypeRepr::Bool, TypeRepr::Bool) => true,
        (TypeRepr::Unit, TypeRepr::Unit) => true,
        (TypeRepr::String, TypeRepr::String) => true,
        (TypeRepr::Closure, TypeRepr::Closure) => true,
        (TypeRepr::List { element: x }, TypeRepr::List { element: y }) => same_type(x, y),
        (TypeRepr::Option { inner: x }, TypeRepr::Option { inner: y }) => same_type(x, y),
        (TypeRepr::Result { ok: x, err: e }, TypeRepr::Result { ok: y, err: f }) => same_type(x, y)
            && same_type(e, f),
        (TypeRepr::Schema { schema: x }, TypeRepr::Schema { schema: y }) => same_schema(x, y),
        (TypeRepr::Enum { name: n, variants: x }, TypeRepr::Enum { name: m, variants: y }) => {
            proof {
                lemma_variants_view(x@);
                lemma_variants_view(y@);
            }
            if *n != *m || x.len() != y.len() {
                return false;
            }
            let mut i: usize = 0;
            while i < x.len()
                invariant
                    i <= x@.len(),
                    x@.len() == y@.len(),
                    *a is Enum,
                    a->variants == *x,
                    *b is Enum,
                    b->variants == *y,
                    variants_view(x@).len() == x@.len(),
                    variants_view(y@).len() == y@.len(),
                    forall|k: int|
                        0 <= k < x@.len() ==> #[trigger] variants_view(x@)[k] == variant_view(
                            x@[k],
                        ),
                    forall|k: int|
                        0 <= k < y@.len() ==> #[trigger] variants_view(y@)[k] == variant_view(
                            y@[k],
                        ),
                    forall|k: int|
                        0 <= k < i ==> #[trigger] variants_view(x@)[k] == variants_view(y@)[k],
                decreases x@.len() - i,
            {
                let v = &x[i];
                let w = &y[i];
                assert(decreases_to!(*a => a->variants));
                assert(decreases_to!(*x => x@));
                assert(decreases_to!(x@ => x@[i as int]));
                assert(decreases_to!(*v => v.payload));
                let payloads: bool = match (&v.payload, &w.payload) {
                    (Some(p), Some(q)) => same_type(p, q),
                    (None, None) => true,
                    _ => false,
                };
                if v.name != w.name || v.tag != w.tag || !payloads {
                    assert(variants_view(x@)[i as int] != variants_view(y@)[i as int]);
                    return false;
                }
                assert(variants_view(x@)[i as int] == variants_view(y@)[i as int]);
                i += 1;
            }
            assert(variants_view(x@) =~= variants_view(y@));
            true
        },
        _ => false,
    }
}

/// Compares two record types.
pub fn same_schema(a: &Schema, b: &Schema) -> (r: bool)
    ensures
        r == (schema_view(*a) == schema_view(*b)),
    decreases a, 0nat,
{
    proof {
        lemma_fields_view(a.fields@);
        lemma_fields_view(b.fields@);
    }
    if a.name != b.name || a.is_tuple != b.is_tuple || a.fields.len() != b.fields.len() {
        return false;
    }
    let mut i: usize = 0;
    while i < a.fields.len()
        invariant
            i <= a.fields@.len(),
            a.fields@.len() == b.fields@.len(),
            fields_view(a.fields@).len() == a.fields@.len(),
            fields_view(b.fields@).len() == b.fields@.len(),
            forall|k: int|
                0 <= k < a.fields@.len() ==> #[trigger] fields_view(a.fields@)[k] == field_view(
                    a.fields@[k],
                ),
            forall|k: int|
                0 <= k < b.fields@.len() ==> #[trigger] fields_view(b.fields@)[k] == field_view(
                    b.fields@[k],
                ),
            forall|k: int|
                0 <= k < i ==> #[trigger] fields_view(a.fields@)[k] == fields_view(b.fields@)[k],
        decreases a.fields@.len() - i,
    {
        if a.fields[i].name != b.fields[i].name || !same_type(&a.fields[i].ty, &b.fields[i].ty) {
            assert(fields_view(a.fields@)[i as int] != fields_view(b.fields@)[i as int]);
            return false;
        }
        assert(fields_view(a.fields@)[i as int] == fields_view(b.fields@)[i as int]);
        i += 1;
    }
    assert(fields_view(a.fields@) =~= fields_view(b.fields@));
    true
}

/// A type as shown in diagnostics; record and enum types show their name.
pub open spec fn type_text(t: TypeView) -> Seq<char>
    decreases t,
{
    match t {
        TypeView::Int => "Int"@,
        TypeView::Float => "Float"@,
        TypeView::Bool => "Bool"@,
        TypeView::Unit => "Unit"@,
        TypeView::String => "String"@,
        TypeView::List { element } => "List { element: "@ + type_text(*element) + " }"@,
        TypeView::Option { inner } => "Option { inner: "@ + type_text(*inner) + " }"@,
        TypeView::Result { ok, err } => "Result { ok: "@ + type_text(*ok) + ", err: "@ + type_text(
            *err,
        ) + " }"@,
        TypeView::Schema { schema } => "Schema "@ + schema.name,
        TypeView::Enum { name, .. } => "Enum "@ + name,
        TypeView::Closure => "Closure"@,
    }
}

/// Executable form of [`type_text`].
pub fn describe_type(t: &TypeRepr) -> (r: String)
    ensures
        r@ == type_text(type_view(*t)),
    decreases t,
{
    match t {
        TypeRepr::Int => "Int".to_owned(),
        TypeRepr::Float => "Float".to_owned(),
        TypeRepr::Bool => "Bool".to_owned(),
        TypeRepr::Unit => "Unit".to_owned(),
        TypeRepr::String => "String".to_owned(),
        TypeRepr::List { element } => join3(
            "List { element: ",
            describe_type(element).as_str(),
            " }",
        ),
        TypeRepr::Option { inner } => join3(
            "Option { inner: ",
            describe_type(inner).as_str(),
            " }",
        ),
        TypeRepr::Result { ok, err } => join3(
            "Result { ok: ",
            describe_type(ok).as_str(),
            ", err: ",
        ).concat(describe_type(err).as_str()).concat(" }"),
        TypeRepr::Schema { schema } => {
            assert(schema_view(**schema).name == schema.name@);
            join2("Schema ", schema.name.as_str())
        },
        TypeRepr::Enum { name, .. } => join2("Enum ", name.as_str()),
        TypeRepr::Closure => "Closure".to_owned(),
    }
}

} // verus!

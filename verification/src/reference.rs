//! Variables, references to sibling fields, and the paths behind them.

use vstd::prelude::*;
use vstd::slice::slice_subrange;

use crate::ast::{
    key_text, path_display, path_text, plain_name, single_name, token_key_display, Node, RefBase,
    TokenKey, TokenRange,
};
use crate::canonical::{table_index, SchemaTable};
use crate::error::{unsupported, ErrorView, LoweringError};
use crate::field_refs::field_base;
use crate::fragment::{
    binding_read, emit_get, emit_set, let_get, let_set, one_op, outcome, read_binding,
    EnumVariantNarrowing, Fragment, FragmentView, NarrowPayload, Scope, Slots, SlotsView,
    SubLowering,
};
use crate::index::{
    dict_index, list_index, list_string_index, lower_dict_string_index, lower_list_index_typed,
    lower_list_int_index, lower_list_string_index,
};
use crate::ir::{
    emit_all, emit_simple, ops_view, sop, IrType, MachineSlot, SimpleOp, TaggedOp, TaggedOpView,
};
use crate::records::{record_ir_type, type_repr_to_ir_type_dict, OffsetTable, RecordLowering};
use crate::shape::{binding_index, field_index, find_binding, unsupported_type, LocalBinding};
use crate::text::{decimal, decimal_chars, join2, join3, same_text, text_is};
use crate::types::{Field, Schema, TypeRepr};
use crate::variant::{law_payload_offset, payload_offset, variant_payload_offset_for_lowering};
use crate::workspace::SchemaDef;

verus! {

// ---------------------------------------------------------------------------
// References to sibling fields.
// ---------------------------------------------------------------------------

/// The name of the scope a reference starts from, for diagnostics.
pub open spec fn base_text(base: RefBase) -> Seq<char> {
    match base {
        RefBase::Sibling => "Sibling"@,
        RefBase::Root => "Root"@,
        RefBase::Uncle => "Uncle"@,
        RefBase::Prev => "Prev"@,
        RefBase::Next => "Next"@,
        RefBase::Index => "Index"@,
        RefBase::This => "This"@,
    }
}

fn base_name(base: RefBase) -> (r: &'static str)
    ensures
        r@ == base_text(base),
{
    match base {
        RefBase::Sibling => "Sibling",
        RefBase::Root => "Root",
        RefBase::Uncle => "Uncle",
        RefBase::Prev => "Prev",
        RefBase::Next => "Next",
        RefBase::Index => "Index",
        RefBase::This => "This",
    }
}

/// A reference to a sibling field: the let binding of its name.
pub open spec fn reference(
    base: RefBase,
    path: Seq<TokenKey>,
    range: TokenRange,
    scope: Scope<'_>,
    at: SlotsView,
) -> Result<FragmentView, ErrorView> {
    if !field_base(base) {
        Err(
            ErrorView::UnsupportedExpr {
                kind: "Reference(positional base "@ + base_text(base)
                    + " not supported on compiled path)"@,
                range,
            },
        )
    } else {
        match plain_name(path) {
            None => Err(
                ErrorView::UnsupportedExpr {
                    kind: "Reference(only a single static field segment is supported, got "@
                        + path_text(path) + ")"@,
                    range,
                },
            ),
            Some(name) => match scope.find(name) {
                Some(b) => Ok(
                    FragmentView {
                        ops: seq![sop(binding_read(b).0, range)],
                        ty: Some(binding_read(b).1),
                        slots: at,
                    },
                ),
                None => Err(ErrorView::UnresolvedVariable { name, range }),
            },
        }
    }
}

/// Lowers a reference to a sibling field.
pub fn lower_reference(
    base: RefBase,
    path: &Vec<TokenKey>,
    range: TokenRange,
    scope: &Scope<'_>,
    at: &Slots,
) -> (r: Result<Fragment, LoweringError>)
    ensures
        outcome(r) == reference(base, path@, range, *scope, at@),
{
    if base != RefBase::Sibling && base != RefBase::Root {
        return Err(
            LoweringError::UnsupportedExpr {
                kind: join3(
                    "Reference(positional base ",
                    base_name(base),
                    " not supported on compiled path)",
                ),
                range,
            },
        );
    }
    match single_name(path) {
        None => Err(
            LoweringError::UnsupportedExpr {
                kind: join3(
                    "Reference(only a single static field segment is supported, got ",
                    path_display(path).as_str(),
                    ")",
                ),
                range,
            },
        ),
        Some(name) => match scope.lookup(name) {
            Some(b) => {
                let (op, ty) = read_binding(b);
                Ok(one_op(op, ty, range, at))
            },
            None => Err(LoweringError::UnresolvedVariable { name: name.clone(), range }),
        },
    }
}

// ---------------------------------------------------------------------------
// Payloads of a variable that is known to hold a variant.
// ---------------------------------------------------------------------------

/// The payload field that a segment names: a plain name, or a position where
/// the payload is a tuple.
pub open spec fn payload_field(segment: TokenKey, is_tuple: bool) -> Option<Seq<char>> {
    match segment {
        TokenKey::String(name, _, optional) => if optional {
            None
        } else {
            Some(name@)
        },
        TokenKey::Index(index, optional) => if optional || !is_tuple {
            None
        } else {
            Some(decimal_chars(index as nat))
        },
        _ => None,
    }
}

/// Executable form of [`payload_field`].
pub fn enum_payload_field_name(segment: &TokenKey, is_tuple: bool) -> (r: Option<String>)
    ensures
        match r {
            Some(name) => payload_field(*segment, is_tuple) == Some(name@),
            None => payload_field(*segment, is_tuple) is None,
        },
{
    match segment {
        TokenKey::String(name, _, optional) => if *optional {
            None
        } else {
            Some(name.clone())
        },
        TokenKey::Index(index, optional) => if *optional || !is_tuple {
            None
        } else {
            Some(decimal(*index))
        },
        _ => None,
    }
}

/// The load of a payload of the given type.
pub open spec fn payload_load(ty: IrType, offset: u32) -> SimpleOp {
    match ty {
        IrType::I64 => SimpleOp::LoadI64AtAbsolute { offset },
        IrType::F64 => SimpleOp::LoadF64AtAbsolute { offset },
        IrType::Bool => SimpleOp::LoadI8UAtAbsolute { offset },
        _ => SimpleOp::LoadI32AtAbsolute { offset },
    }
}

/// Executable form of [`payload_load`].
pub fn direct_payload_load_op(ty: IrType, offset: u32) -> (r: SimpleOp)
    ensures
        r == payload_load(ty, offset),
{
    match ty {
        IrType::I64 => SimpleOp::LoadI64AtAbsolute { offset },
        IrType::F64 => SimpleOp::LoadF64AtAbsolute { offset },
        IrType::Bool => SimpleOp::LoadI8UAtAbsolute { offset },
        _ => SimpleOp::LoadI32AtAbsolute { offset },
    }
}

/// A payload is read through a pointer, so its base must be one.
pub open spec fn payload_base_error(base: IrType, range: TokenRange) -> Option<ErrorView> {
    if base == IrType::I32 {
        None
    } else {
        Some(
            ErrorView::UnsupportedExpr {
                kind: "Enum(payload access expected I32 variant pointer, got "@ + base.tag(),
                range,
            },
        )
    }
}

/// Checks the base of a payload access.
pub fn validate_enum_payload_base(base: IrType, range: TokenRange) -> (r: Result<
    (),
    LoweringError,
>)
    ensures
        match r {
            Ok(_) => payload_base_error(base, range) is None,
            Err(e) => payload_base_error(base, range) == Some(e@),
        },
{
    if base == IrType::I32 {
        Ok(())
    } else {
        Err(
            LoweringError::UnsupportedExpr {
                kind: join2(
                    "Enum(payload access expected I32 variant pointer, got ",
                    base.name(),
                ),
                range,
            },
        )
    }
}

/// The payload is a tuple.
pub open spec fn tuple_payload(n: EnumVariantNarrowing<'_>) -> bool {
    match n.payload {
        NarrowPayload::Record(schema, _) => schema.is_tuple,
        _ => false,
    }
}

/// The error for a variant without the field.
pub open spec fn no_payload_field(
    variant: Seq<char>,
    field: Seq<char>,
    range: TokenRange,
) -> ErrorView {
    ErrorView::UnsupportedExpr {
        kind: "Enum(variant `"@ + variant + "` has no payload field `"@ + field + "`)"@,
        range,
    }
}

/// Executable form of [`no_payload_field`].
pub fn payload_field_error(variant: &str, field: &str, range: TokenRange) -> (e: LoweringError)
    ensures
        e@ == no_payload_field(variant@, field@, range),
{
    LoweringError::UnsupportedExpr {
        kind: join3("Enum(variant `", variant, "` has no payload field `").concat(field).concat(
            "`)",
        ),
        range,
    }
}

/// The error for a field of a variant that carries nothing.
pub open spec fn unit_payload_field(
    variant: Seq<char>,
    field: Seq<char>,
    range: TokenRange,
) -> ErrorView {
    ErrorView::UnsupportedExpr {
        kind: "Enum(unit variant `"@ + variant + "` has no payload field `"@ + field + "`)"@,
        range,
    }
}

/// Executable form of [`unit_payload_field`].
pub fn unit_payload_error(variant: &str, field: &str, range: TokenRange) -> (e: LoweringError)
    ensures
        e@ == unit_payload_field(variant@, field@, range),
{
    LoweringError::UnsupportedExpr {
        kind: join3("Enum(unit variant `", variant, "` has no payload field `").concat(
            field,
        ).concat("`)"),
        range,
    }
}

/// The value is fit for its type, or the error of the base.
pub open spec fn checked_payload(
    ops: Seq<TaggedOpView>,
    ty: IrType,
    base: IrType,
    range: TokenRange,
    at: SlotsView,
) -> Result<FragmentView, ErrorView> {
    match payload_base_error(base, range) {
        Some(e) => Err(e),
        None => Ok(FragmentView { ops, ty: Some(ty), slots: at }),
    }
}

/// The instructions that read a payload field off the variant pointer of type
/// `base` on the stack.
pub open spec fn payload_path<L: RecordLowering>(
    low: L,
    tail: Seq<TokenKey>,
    n: EnumVariantNarrowing<'_>,
    base: IrType,
    range: TokenRange,
    at: SlotsView,
) -> Result<FragmentView, ErrorView> {
    if tail.len() != 1 {
        Err(
            ErrorView::UnsupportedExpr {
                kind: "Enum(payload access with more than one segment)"@,
                range,
            },
        )
    } else {
        match payload_field(tail[0], tuple_payload(n)) {
            None => Err(
                ErrorView::UnsupportedExpr {
                    kind: "Enum(payload access expects a field name or tuple index)"@,
                    range,
                },
            ),
            Some(field) => payload_read(low, field, n, base, range, at),
        }
    }
}

/// The read of the named payload field.
pub open spec fn payload_read<L: RecordLowering>(
    low: L,
    field: Seq<char>,
    n: EnumVariantNarrowing<'_>,
    base: IrType,
    range: TokenRange,
    at: SlotsView,
) -> Result<FragmentView, ErrorView> {
    match n.payload {
        NarrowPayload::Direct(name, ty) => if field != name.text() {
            Err(no_payload_field(n.variant.text(), field, range))
        } else {
            match (payload_offset(*ty), record_ir_type(*ty)) {
                (Some(offset), Some(irt)) => checked_payload(
                    seq![sop(payload_load(irt, offset as u32), range)],
                    irt,
                    base,
                    range,
                    at,
                ),
                _ => Err(unsupported_type(*ty)),
            }
        },
        NarrowPayload::Unit => Err(unit_payload_field(n.variant.text(), field, range)),
        NarrowPayload::Record(schema, payload_ty) => match field_index(schema.fields@, field, 0) {
            None => Err(no_payload_field(n.variant.text(), field, range)),
            Some(i) => match payload_offset(*payload_ty) {
                None => Err(unsupported_type(*payload_ty)),
                Some(offset) => match low.layout(*schema) {
                    Err(e) => Err(e),
                    Ok(layout) => match record_ir_type(schema.fields@[i].ty) {
                        None => Err(unsupported_type(schema.fields@[i].ty)),
                        Some(irt) => checked_payload(
                            seq![
                                sop(
                                    SimpleOp::LoadI32AtAbsolute { offset: offset as u32 },
                                    range,
                                ),
                                sop(
                                    SimpleOp::LoadFieldAtAbsolute {
                                        offset: layout.fields[i].offset,
                                        ty: irt,
                                    },
                                    range,
                                ),
                            ],
                            irt,
                            base,
                            range,
                            at,
                        ),
                    },
                },
            },
        },
    }
}

/// The position of a field.
pub fn find_field_index(fields: &Vec<Field>, name: &str) -> (r: Option<usize>)
    ensures
        match r {
            Some(i) => i < fields@.len() && field_index(fields@, name@, 0) == Some(i as int),
            None => field_index(fields@, name@, 0) is None,
        },
{
    let mut i: usize = 0;
    while i < fields.len()
        invariant
            i <= fields@.len(),
            field_index(fields@, name@, 0) == field_index(fields@, name@, i as int),
        decreases fields@.len() - i,
    {
        if same_text(fields[i].name.as_str(), name) {
            return Some(i);
        }
        i += 1;
    }
    None
}

/// Reads the named payload field off the variant pointer on the stack.
pub fn lower_payload_field<L: RecordLowering>(
    field: &str,
    narrowing: &EnumVariantNarrowing<'_>,
    base: IrType,
    range: TokenRange,
    at: &Slots,
    low: &L,
) -> (r: Result<Fragment, LoweringError>)
    ensures
        outcome(r) == payload_read(*low, field@, *narrowing, base, range, at@),
{
    match &narrowing.payload {
        NarrowPayload::Direct(name, ty) => {
            if !same_text(field, name.name()) {
                return Err(payload_field_error(narrowing.variant.shown(), field, range));
            }
            proof {
                law_payload_offset(**ty);
            }
            let offset: usize = match variant_payload_offset_for_lowering(ty) {
                Err(e) => {
                    return Err(e);
                },
                Ok(o) => o,
            };
            let irt: IrType = match type_repr_to_ir_type_dict(ty) {
                Err(e) => {
                    return Err(e);
                },
                Ok(t) => t,
            };
            match validate_enum_payload_base(base, range) {
                Err(e) => Err(e),
                Ok(_) => Ok(
                    one_op(direct_payload_load_op(irt, offset as u32), irt, range, at),
                ),
            }
        },
        NarrowPayload::Unit => Err(unit_payload_error(narrowing.variant.shown(), field, range)),
        NarrowPayload::Record(schema, payload_ty) => {
            let i: usize = match find_field_index(&schema.fields, field) {
                None => {
                    return Err(payload_field_error(narrowing.variant.shown(), field, range));
                },
                Some(i) => i,
            };
            let offset: usize = match variant_payload_offset_for_lowering(payload_ty) {
                Err(e) => {
                    return Err(e);
                },
                Ok(o) => o,
            };
            proof {
                law_payload_offset(**payload_ty);
            }
            let layout: OffsetTable = match low.offsets_for(schema) {
                Err(e) => {
                    return Err(e);
                },
                Ok(l) => l,
            };
            let irt: IrType = match type_repr_to_ir_type_dict(&schema.fields[i].ty) {
                Err(e) => {
                    return Err(e);
                },
                Ok(t) => t,
            };
            match validate_enum_payload_base(base, range) {
                Err(e) => {
                    return Err(e);
                },
                Ok(_) => {},
            }
            let mut ops: Vec<TaggedOp> = Vec::new();
            emit_simple(&mut ops, SimpleOp::LoadI32AtAbsolute { offset: offset as u32 }, range);
            emit_simple(
                &mut ops,
                SimpleOp::LoadFieldAtAbsolute { offset: layout.fields[i].offset, ty: irt },
                range,
            );
            assert(ops_view(ops@) =~= seq![
                sop(SimpleOp::LoadI32AtAbsolute { offset: offset as u32 }, range),
                sop(
                    SimpleOp::LoadFieldAtAbsolute {
                        offset: layout.fields@[i as int].offset,
                        ty: irt,
                    },
                    range,
                ),
            ]);
            Ok(Fragment { ops, ty: Some(irt), slots: at.copy() })
        },
    }
}

/// Reads a payload field off the variant pointer on the stack.
pub fn lower_enum_payload_path<L: RecordLowering>(
    path_tail: &[TokenKey],
    narrowing: &EnumVariantNarrowing<'_>,
    base: IrType,
    range: TokenRange,
    at: &Slots,
    low: &L,
) -> (r: Result<Fragment, LoweringError>)
    ensures
        outcome(r) == payload_path(*low, path_tail@, *narrowing, base, range, at@),
{
    if path_tail.len() != 1 {
        return Err(unsupported("Enum(payload access with more than one segment)", range));
    }
    let is_tuple: bool = match &narrowing.payload {
        NarrowPayload::Record(schema, _) => schema.is_tuple,
        _ => false,
    };
    match enum_payload_field_name(&path_tail[0], is_tuple) {
        None => Err(
            unsupported("Enum(payload access expects a field name or tuple index)", range),
        ),
        Some(field) => lower_payload_field(field.as_str(), narrowing, base, range, at, low),
    }
}

// ---------------------------------------------------------------------------
// Variables.
// ---------------------------------------------------------------------------

/// The receiver of a method: its slot and its record type.
#[derive(Debug, PartialEq, Eq)]
pub struct SelfBinding {
    pub wasm_local_idx: u32,
    pub schema: Schema,
}

/// A method parameter: its slot and its types.
#[derive(Debug, PartialEq, Eq)]
pub struct MethodParam {
    pub name: String,
    pub ty: IrType,
    pub wasm_local_idx: u32,
    pub schema: Option<Schema>,
}

/// The names around a body that are not let bindings: the entry parameters, or
/// inside a method the receiver and the method parameters; and the declared
/// types.
#[derive(Clone, Copy)]
pub struct Frame<'a> {
    pub params: &'a Vec<LocalBinding<'a>>,
    pub self_binding: Option<&'a SelfBinding>,
    pub method_params: &'a Vec<MethodParam>,
    pub types: &'a SchemaTable<'a>,
}

/// The least index at or behind `from` of a method parameter of the name.
pub open spec fn method_param_index(params: Seq<MethodParam>, name: Seq<char>, from: int) -> Option<
    int,
>
    decreases params.len() - from,
{
    if from < 0 || from >= params.len() {
        None
    } else if params[from].name@ == name {
        Some(from)
    } else {
        method_param_index(params, name, from + 1)
    }
}

fn find_method_param<'a>(params: &'a Vec<MethodParam>, name: &String) -> (r: Option<
    &'a MethodParam,
>)
    ensures
        match r {
            Some(p) => (method_param_index(params@, name@, 0) matches Some(i) && *p
                == params@[i]),
            None => method_param_index(params@, name@, 0) is None,
        },
{
    let mut i: usize = 0;
    while i < params.len()
        invariant
            i <= params@.len(),
            method_param_index(params@, name@, 0) == method_param_index(
                params@,
                name@,
                i as int,
            ),
        decreases params@.len() - i,
    {
        if params[i].name == *name {
            return Some(&params[i]);
        }
        i += 1;
    }
    None
}

/// The declared record type of the name.
pub open spec fn named_schema(types: Seq<(String, &SchemaDef)>, name: Option<String>) -> Option<
    Schema,
> {
    match name {
        Some(n) => match table_index(types, n@, 0) {
            Some(i) => match types[i].1.shape {
                Ok(TypeRepr::Schema { schema }) => Some(*schema),
                _ => None,
            },
            None => None,
        },
        None => None,
    }
}

fn find_schema<'a>(types: &SchemaTable<'a>, name: &Option<String>) -> (r: Option<&'a Schema>)
    ensures
        match r {
            Some(s) => named_schema(types.entries@, *name) == Some(*s),
            None => named_schema(types.entries@, *name) is None,
        },
{
    match name {
        None => None,
        Some(n) => match types.find(n.as_str()) {
            Some(def) => match &def.shape {
                Ok(TypeRepr::Schema { schema }) => Some(&**schema),
                _ => None,
            },
            None => None,
        },
    }
}

/// What the head of a path pushes: an instruction, the type of the value, and
/// the record type that it points at.
pub ghost struct HeadView {
    pub op: SimpleOp,
    pub ty: IrType,
    pub schema: Option<Schema>,
}

struct Head<'a> {
    op: SimpleOp,
    ty: IrType,
    schema: Option<&'a Schema>,
}

/// The value behind an optional reference to a record type.
pub open spec fn schema_value(s: Option<&Schema>) -> Option<Schema> {
    match s {
        Some(s) => Some(*s),
        None => None,
    }
}

/// The load of an entry parameter.
pub open spec fn param_load(b: LocalBinding<'_>) -> SimpleOp {
    let offset = b.offset;
    match b.ty {
        IrType::I32 => if b.schema_brand is Some {
            SimpleOp::LoadSchemaPtr { offset }
        } else {
            SimpleOp::LoadField { offset, ty: b.ty }
        },
        IrType::String => SimpleOp::LoadStringPtr { offset },
        IrType::ListInt => SimpleOp::LoadListIntPtr { offset },
        IrType::ListFloat => SimpleOp::LoadListFloatPtr { offset },
        IrType::ListBool => SimpleOp::LoadListBoolPtr { offset },
        IrType::ListString => SimpleOp::LoadListStringPtr { offset },
        IrType::ListSchema => SimpleOp::LoadListSchemaPtr { offset },
        IrType::ListList => SimpleOp::LoadListListPtr { offset },
        _ => SimpleOp::LoadField { offset, ty: b.ty },
    }
}

fn load_param(b: &LocalBinding<'_>) -> (r: SimpleOp)
    ensures
        r == param_load(*b),
{
    let offset: u32 = b.offset;
    match b.ty {
        IrType::I32 => if b.schema_brand.is_some() {
            SimpleOp::LoadSchemaPtr { offset }
        } else {
            SimpleOp::LoadField { offset, ty: b.ty }
        },
        IrType::String => SimpleOp::LoadStringPtr { offset },
        IrType::ListInt => SimpleOp::LoadListIntPtr { offset },
        IrType::ListFloat => SimpleOp::LoadListFloatPtr { offset },
        IrType::ListBool => SimpleOp::LoadListBoolPtr { offset },
        IrType::ListString => SimpleOp::LoadListStringPtr { offset },
        IrType::ListSchema => SimpleOp::LoadListSchemaPtr { offset },
        IrType::ListList => SimpleOp::LoadListListPtr { offset },
        _ => SimpleOp::LoadField { offset, ty: b.ty },
    }
}

/// The record type of an entry parameter.
pub open spec fn param_schema(b: LocalBinding<'_>) -> Option<Schema> {
    match *b.type_repr {
        TypeRepr::Schema { schema } => Some(*schema),
        _ => None,
    }
}

/// What the name at the head of a path pushes. A let binding comes before an
/// entry parameter or a method parameter; inside a method `self` comes first,
/// and the entry parameters are out of sight.
pub open spec fn head_of(frame: Frame<'_>, name: Seq<char>, scope: Scope<'_>) -> Option<HeadView> {
    if frame.self_binding is Some && name == "self"@ {
        Some(
            HeadView {
                op: SimpleOp::LocalGet(frame.self_binding->0.wasm_local_idx),
                ty: IrType::I32,
                schema: Some(frame.self_binding->0.schema),
            },
        )
    } else {
        match scope.find(name) {
            Some(b) => Some(
                HeadView {
                    op: SimpleOp::LetGet { idx: b.idx, ty: b.ty },
                    ty: b.ty,
                    schema: named_schema(frame.types.entries@, b.schema_brand),
                },
            ),
            None => if frame.self_binding is Some {
                match method_param_index(frame.method_params@, name, 0) {
                    Some(i) => Some(
                        HeadView {
                            op: SimpleOp::LocalGet(frame.method_params@[i].wasm_local_idx),
                            ty: frame.method_params@[i].ty,
                            schema: frame.method_params@[i].schema,
                        },
                    ),
                    None => None,
                }
            } else {
                match binding_index(frame.params@, name, 0) {
                    Some(i) => Some(
                        HeadView {
                            op: param_load(frame.params@[i]),
                            ty: frame.params@[i].ty,
                            schema: param_schema(frame.params@[i]),
                        },
                    ),
                    None => None,
                }
            },
        }
    }
}

fn find_head<'a>(frame: &Frame<'a>, name: &String, scope: &Scope<'_>) -> (r: Option<Head<'a>>)
    ensures
        match r {
            Some(h) => head_of(*frame, name@, *scope) == Some(
                HeadView { op: h.op, ty: h.ty, schema: schema_value(h.schema) },
            ),
            None => head_of(*frame, name@, *scope) is None,
        },
{
    match frame.self_binding {
        Some(s) => {
            if text_is(name, "self") {
                return Some(
                    Head {
                        op: SimpleOp::LocalGet(s.wasm_local_idx),
                        ty: IrType::I32,
                        schema: Some(&s.schema),
                    },
                );
            }
        },
        None => {},
    }
    match scope.lookup(name) {
        Some(b) => Some(
            Head {
                op: SimpleOp::LetGet { idx: b.idx, ty: b.ty },
                ty: b.ty,
                schema: find_schema(frame.types, &b.schema_brand),
            },
        ),
        None => {
            if frame.self_binding.is_some() {
                match find_method_param(frame.method_params, name) {
                    Some(p) => Some(
                        Head {
                            op: SimpleOp::LocalGet(p.wasm_local_idx),
                            ty: p.ty,
                            schema: match &p.schema {
                                Some(s) => Some(s),
                                None => None,
                            },
                        },
                    ),
                    None => None,
                }
            } else {
                match find_binding(frame.params, name) {
                    Some(b) => Some(
                        Head {
                            op: load_param(b),
                            ty: b.ty,
                            schema: match b.type_repr {
                                TypeRepr::Schema { schema } => Some(&**schema),
                                _ => None,
                            },
                        },
                    ),
                    None => None,
                }
            }
        },
    }
}

/// All segments behind the head are computed indices.
pub open spec fn all_dynamic(path: Seq<TokenKey>) -> bool {
    forall|i: int| 1 <= i < path.len() ==> (#[trigger] path[i]) is Dynamic
}

fn is_all_dynamic(path: &Vec<TokenKey>) -> (r: bool)
    ensures
        r == all_dynamic(path@),
{
    let mut i: usize = 1;
    while i < path.len()
        invariant
            1 <= i,
            path@.len() > 0 ==> i <= path@.len(),
            forall|k: int| 1 <= k < i && k < path@.len() ==> (#[trigger] path@[k]) is Dynamic,
        decreases path@.len() - i,
    {
        match &path[i] {
            TokenKey::Dynamic(_, _) => {},
            _ => {
                assert(!(path@[i as int] is Dynamic));
                return false;
            },
        }
        i += 1;
    }
    true
}

/// What an index on a value of the given type is.
#[derive(Clone, Copy, Debug, PartialEq, Eq, Structural)]
pub enum IndexForm {
    /// A chain of indices into nested integer lists.
    Rows,
    Floats,
    Strings,
    Entries,
}

/// The index form of a path on a value of the given type: integer lists nest,
/// the others take one index.
pub open spec fn index_form(ty: IrType, segments: int) -> Option<IndexForm> {
    match ty {
        IrType::ListInt => Some(IndexForm::Rows),
        IrType::ListFloat => if segments == 1 {
            Some(IndexForm::Floats)
        } else {
            None
        },
        IrType::ListString => if segments == 1 {
            Some(IndexForm::Strings)
        } else {
            None
        },
        IrType::Dict => if segments == 1 {
            Some(IndexForm::Entries)
        } else {
            None
        },
        _ => None,
    }
}

fn find_index_form(ty: IrType, segments: usize) -> (r: Option<IndexForm>)
    ensures
        r == index_form(ty, segments as int),
{
    match ty {
        IrType::ListInt => Some(IndexForm::Rows),
        IrType::ListFloat => if segments == 1 {
            Some(IndexForm::Floats)
        } else {
            None
        },
        IrType::ListString => if segments == 1 {
            Some(IndexForm::Strings)
        } else {
            None
        },
        IrType::Dict => if segments == 1 {
            Some(IndexForm::Entries)
        } else {
            None
        },
        _ => None,
    }
}

/// One fragment behind another.
pub open spec fn appended(
    ops: Seq<TaggedOpView>,
    rest: Result<FragmentView, ErrorView>,
) -> Result<FragmentView, ErrorView> {
    match rest {
        Ok(f) => Ok(FragmentView { ops: ops + f.ops, ty: f.ty, slots: f.slots }),
        Err(e) => Err(e),
    }
}

fn append(ops: Vec<TaggedOp>, rest: Result<Fragment, LoweringError>) -> (r: Result<
    Fragment,
    LoweringError,
>)
    ensures
        outcome(r) == appended(ops_view(ops@), outcome(rest)),
{
    match rest {
        Err(e) => Err(e),
        Ok(f) => {
            let Fragment { ops: more, ty, slots } = f;
            let mut out: Vec<TaggedOp> = ops;
            emit_all(&mut out, more);
            Ok(Fragment { ops: out, ty, slots })
        },
    }
}

/// The indices at and behind `from`, applied to the integer list whose handle
/// the instructions `done` leave. A value that is indexed again is the handle
/// of an inner list.
pub open spec fn row_chain<L: SubLowering>(
    low: L,
    path: Seq<TokenKey>,
    range: TokenRange,
    scope: Scope<'_>,
    done: Seq<TaggedOpView>,
    at: SlotsView,
    from: int,
) -> Result<FragmentView, ErrorView>
    decreases path.len() - from,
{
    if from < 0 || from >= path.len() {
        Ok(FragmentView { ops: done, ty: Some(IrType::I64), slots: at })
    } else {
        match path[from] {
            TokenKey::Dynamic(node, optional) => if optional {
                Err(
                    ErrorView::UnsupportedExpr {
                        kind: "Variable(optional-list-index unsupported)"@,
                        range,
                    },
                )
            } else {
                match list_index(low, node, IrType::ListInt, range, scope, at) {
                    Err(e) => Err(e),
                    Ok(f) => if from + 1 == path.len() {
                        row_chain(low, path, range, scope, done + f.ops, f.slots, from + 1)
                    } else {
                        let handle = f.slots.lets;
                        row_chain(
                            low,
                            path,
                            range,
                            scope,
                            (done + f.ops).push(let_set(handle, IrType::ListInt, range)).push(
                                let_get(handle, IrType::ListInt, range),
                            ),
                            f.slots.after(1),
                            from + 1,
                        )
                    },
                }
            },
            _ => Ok(FragmentView { ops: done, ty: Some(IrType::I64), slots: at }),
        }
    }
}

fn lower_row_chain<L: SubLowering>(
    path: &Vec<TokenKey>,
    range: TokenRange,
    scope: &Scope<'_>,
    head: Vec<TaggedOp>,
    at: &Slots,
    low: &L,
) -> (r: Result<Fragment, LoweringError>)
    requires
        path@.len() >= 2,
    ensures
        outcome(r) == row_chain(*low, path@, range, *scope, ops_view(head@), at@, 1),
{
    let mut out: Vec<TaggedOp> = head;
    let mut slots: Slots = at.copy();
    let mut i: usize = 1;
    let ghost whole = row_chain(*low, path@, range, *scope, ops_view(head@), at@, 1);
    while i < path.len()
        invariant
            1 <= i <= path@.len(),
            whole == row_chain(*low, path@, range, *scope, ops_view(head@), at@, 1),
            whole == row_chain(*low, path@, range, *scope, ops_view(out@), slots@, i as int),
        decreases path@.len() - i,
    {
        match &path[i] {
            TokenKey::Dynamic(node, optional) => {
                if *optional {
                    return Err(unsupported("Variable(optional-list-index unsupported)", range));
                }
                match lower_list_int_index(node, range, scope, &slots, low) {
                    Err(e) => {
                        return Err(e);
                    },
                    Ok(f) => {
                        let Fragment { ops, slots: behind, .. } = f;
                        emit_all(&mut out, ops);
                        if i + 1 == path.len() {
                            slots = behind;
                        } else {
                            let handle: u32 = behind.lets;
                            emit_set(&mut out, handle, IrType::ListInt, range);
                            emit_get(&mut out, handle, IrType::ListInt, range);
                            slots = behind.reserve(1);
                        }
                    },
                }
            },
            _ => {
                return Ok(Fragment { ops: out, ty: Some(IrType::I64), slots });
            },
        }
        i += 1;
    }
    Ok(Fragment { ops: out, ty: Some(IrType::I64), slots })
}


/// The index of a list of floats or strings, or of a dictionary, behind the
/// instructions that push it.
pub open spec fn lone_index<L: SubLowering>(
    low: L,
    form: IndexForm,
    node: Node,
    optional: bool,
    range: TokenRange,
    scope: Scope<'_>,
    at: SlotsView,
) -> Result<FragmentView, ErrorView> {
    if optional {
        Err(
            ErrorView::UnsupportedExpr {
                kind: if form == IndexForm::Entries {
                    "Variable(optional-dict-index unsupported)"@
                } else {
                    "Variable(optional-list-index unsupported)"@
                },
                range,
            },
        )
    } else {
        match form {
            IndexForm::Floats => list_index(low, node, IrType::ListFloat, range, scope, at),
            IndexForm::Strings => list_string_index(low, node, range, scope, at),
            IndexForm::Entries => dict_index(low, node, range, scope, at),
            IndexForm::Rows => list_index(low, node, IrType::ListInt, range, scope, at),
        }
    }
}

fn lower_lone_index<L: SubLowering>(
    form: IndexForm,
    node: &Node,
    optional: bool,
    range: TokenRange,
    scope: &Scope<'_>,
    at: &Slots,
    low: &L,
) -> (r: Result<Fragment, LoweringError>)
    ensures
        outcome(r) == lone_index(*low, form, *node, optional, range, *scope, at@),
{
    if optional {
        return Err(
            if form == IndexForm::Entries {
                unsupported("Variable(optional-dict-index unsupported)", range)
            } else {
                unsupported("Variable(optional-list-index unsupported)", range)
            },
        );
    }
    match form {
        IndexForm::Floats => lower_list_index_typed(
            node,
            IrType::ListFloat,
            range,
            scope,
            at,
            low,
        ),
        IndexForm::Strings => lower_list_string_index(node, range, scope, at, low),
        IndexForm::Entries => lower_dict_string_index(node, range, scope, at, low),
        IndexForm::Rows => lower_list_int_index(node, range, scope, at, low),
    }
}

/// The record field that a segment names, or why it names none.
pub open spec fn walk_field(schema: Schema, seg: TokenKey) -> Result<Seq<char>, Seq<char>> {
    match seg {
        TokenKey::String(s, _, _) => Ok(s@),
        TokenKey::Index(i, optional) => if !schema.is_tuple {
            Err("Variable(non-string-segment)"@)
        } else if optional {
            Err("Variable(optional-tuple-index unsupported)"@)
        } else {
            Ok(decimal_chars(i as nat))
        },
        _ => Err("Variable(non-string-segment)"@),
    }
}

fn walk_field_name(schema: &Schema, seg: &TokenKey) -> (r: Result<String, &'static str>)
    ensures
        match r {
            Ok(name) => walk_field(*schema, *seg) == Ok::<Seq<char>, Seq<char>>(name@),
            Err(kind) => walk_field(*schema, *seg) == Err::<Seq<char>, Seq<char>>(kind@),
        },
{
    match seg {
        TokenKey::String(s, _, _) => Ok(s.clone()),
        TokenKey::Index(i, optional) => if !schema.is_tuple {
            Err("Variable(non-string-segment)")
        } else if *optional {
            Err("Variable(optional-tuple-index unsupported)")
        } else {
            Ok(decimal(*i))
        },
        _ => Err("Variable(non-string-segment)"),
    }
}

/// The record type that a field points at.
pub open spec fn field_schema(ty: TypeRepr) -> Option<Schema> {
    match ty {
        TypeRepr::Schema { schema } => Some(*schema),
        _ => None,
    }
}

/// The field loads of the segments at and behind `from`, off a value of type
/// `ty` that points at a record of type `schema`.
pub open spec fn field_walk<L: RecordLowering>(
    low: L,
    path: Seq<TokenKey>,
    range: TokenRange,
    schema: Option<Schema>,
    ty: IrType,
    done: Seq<TaggedOpView>,
    at: SlotsView,
    from: int,
) -> Result<FragmentView, ErrorView>
    decreases path.len() - from,
{
    if from < 0 || from >= path.len() {
        Ok(FragmentView { ops: done, ty: Some(ty), slots: at })
    } else {
        match schema {
            None => Err(
                ErrorView::UnsupportedExpr {
                    kind: "Variable(field-on-non-schema-base, segment=`"@ + key_text(path[from])
                        + "`)"@,
                    range,
                },
            ),
            Some(s) => match walk_field(s, path[from]) {
                Err(kind) => Err(ErrorView::UnsupportedExpr { kind, range }),
                Ok(field) => match low.layout(s) {
                    Err(e) => Err(e),
                    Ok(layout) => match field_index(s.fields@, field, 0) {
                        None => Err(
                            ErrorView::UnsupportedFieldType {
                                schema: s.name@,
                                field,
                                ty: "(unknown field)"@,
                                range,
                            },
                        ),
                        Some(i) => if ty.slot_spec() != MachineSlot::I32 {
                            Err(
                                ErrorView::UnsupportedExpr {
                                    kind: "Variable(field-base-not-i32, got="@ + ty.tag() + ")"@,
                                    range,
                                },
                            )
                        } else {
                            match record_ir_type(s.fields@[i].ty) {
                                None => Err(unsupported_type(s.fields@[i].ty)),
                                Some(irt) => field_walk(
                                    low,
                                    path,
                                    range,
                                    field_schema(s.fields@[i].ty),
                                    irt,
                                    done.push(
                                        sop(
                                            SimpleOp::LoadFieldAtAbsolute {
                                                offset: layout.fields[i].offset,
                                                ty: irt,
                                            },
                                            range,
                                        ),
                                    ),
                                    at,
                                    from + 1,
                                ),
                            }
                        },
                    },
                },
            },
        }
    }
}

fn lower_field_walk<L: RecordLowering>(
    path: &Vec<TokenKey>,
    range: TokenRange,
    schema: Option<&Schema>,
    ty: IrType,
    head: Vec<TaggedOp>,
    at: &Slots,
    low: &L,
) -> (r: Result<Fragment, LoweringError>)
    requires
        path@.len() >= 1,
    ensures
        outcome(r) == field_walk(
            *low,
            path@,
            range,
            schema_value(schema),
            ty,
            ops_view(head@),
            at@,
            1,
        ),
{
    let mut out: Vec<TaggedOp> = head;
    let mut current: Option<&Schema> = schema;
    let mut held: IrType = ty;
    let mut i: usize = 1;
    let ghost whole = field_walk(
        *low,
        path@,
        range,
        schema_value(schema),
        ty,
        ops_view(head@),
        at@,
        1,
    );
    while i < path.len()
        invariant
            1 <= i <= path@.len(),
            whole == field_walk(
                *low,
                path@,
                range,
                schema_value(schema),
                ty,
                ops_view(head@),
                at@,
                1,
            ),
            whole == field_walk(
                *low,
                path@,
                range,
                schema_value(current),
                held,
                ops_view(out@),
                at@,
                i as int,
            ),
        decreases path@.len() - i,
    {
        let s: &Schema = match current {
            None => {
                return Err(
                    LoweringError::UnsupportedExpr {
                        kind: join3(
                            "Variable(field-on-non-schema-base, segment=`",
                            token_key_display(&path[i]).as_str(),
                            "`)",
                        ),
                        range,
                    },
                );
            },
            Some(s) => s,
        };
        let field: String = match walk_field_name(s, &path[i]) {
            Err(kind) => {
                return Err(unsupported(kind, range));
            },
            Ok(name) => name,
        };
        let layout: OffsetTable = match low.offsets_for(s) {
            Err(e) => {
                return Err(e);
            },
            Ok(l) => l,
        };
        let k: usize = match find_field_index(&s.fields, field.as_str()) {
            None => {
                return Err(
                    LoweringError::UnsupportedFieldType {
                        schema: s.name.clone(),
                        field,
                        ty: "(unknown field)".to_owned(),
                        range,
                    },
                );
            },
            Some(k) => k,
        };
        if held.wasm_slot() != MachineSlot::I32 {
            return Err(
                LoweringError::UnsupportedExpr {
                    kind: join3("Variable(field-base-not-i32, got=", held.name(), ")"),
                    range,
                },
            );
        }
        let irt: IrType = match type_repr_to_ir_type_dict(&s.fields[k].ty) {
            Err(e) => {
                return Err(e);
            },
            Ok(t) => t,
        };
        emit_simple(
            &mut out,
            SimpleOp::LoadFieldAtAbsolute { offset: layout.fields[k].offset, ty: irt },
            range,
        );
        held = irt;
        current = match &s.fields[k].ty {
            TypeRepr::Schema { schema } => Some(&**schema),
            _ => None,
        };
        i += 1;
    }
    Ok(Fragment { ops: out, ty: Some(held), slots: at.copy() })
}

/// The lowering of a variable path.
pub open spec fn variable<L: RecordLowering>(
    low: L,
    frame: Frame<'_>,
    path: Seq<TokenKey>,
    range: TokenRange,
    scope: Scope<'_>,
    at: SlotsView,
) -> Result<FragmentView, ErrorView> {
    if path.len() == 0 {
        Err(ErrorView::UnsupportedExpr { kind: "Variable(empty-path)"@, range })
    } else {
        match path[0] {
            TokenKey::String(name, _, _) => match folded(path, scope) {
                Some(one) => Ok(
                    FragmentView { ops: seq![sop(one.0, range)], ty: Some(one.1), slots: at },
                ),
                None => match head_of(frame, name@, scope) {
                    None => Err(ErrorView::UnresolvedVariable { name: name@, range }),
                    Some(head) => behind_head(
                        low,
                        path,
                        range,
                        scope,
                        at,
                        head,
                        scope.narrowed(name@),
                    ),
                },
            },
            _ => Err(ErrorView::UnsupportedExpr { kind: "Variable(non-string-key)"@, range }),
        }
    }
}

/// The literal that a single name stands for.
pub open spec fn folded(path: Seq<TokenKey>, scope: Scope<'_>) -> Option<(SimpleOp, IrType)> {
    match plain_name(path) {
        Some(name) => match scope.find(name) {
            Some(b) => match b.constant {
                Some(c) => Some((c.op(), c.ty())),
                None => None,
            },
            None => None,
        },
        None => None,
    }
}

/// What follows the head of a variable path.
pub open spec fn behind_head<L: RecordLowering>(
    low: L,
    path: Seq<TokenKey>,
    range: TokenRange,
    scope: Scope<'_>,
    at: SlotsView,
    head: HeadView,
    narrowed: Option<EnumVariantNarrowing<'_>>,
) -> Result<FragmentView, ErrorView> {
    let first = seq![sop(head.op, range)];
    if path.len() == 1 {
        Ok(FragmentView { ops: first, ty: Some(head.ty), slots: at })
    } else {
        match narrowed {
            Some(n) => appended(
                first,
                payload_path(low, path.skip(1), n, head.ty, range, at),
            ),
            None => match (index_form(head.ty, path.len() - 1), all_dynamic(path)) {
                (Some(IndexForm::Rows), true) => row_chain(
                    low,
                    path,
                    range,
                    scope,
                    first,
                    at,
                    1,
                ),
                (Some(form), true) => appended(
                    first,
                    lone_index(
                        low,
                        form,
                        path[1]->Dynamic_0,
                        path[1]->Dynamic_1,
                        range,
                        scope,
                        at,
                    ),
                ),
                _ => field_walk(low, path, range, head.schema, head.ty, first, at, 1),
            },
        }
    }
}

/// Lowers a variable path: the value of its head, then payload, index or field
/// reads for the segments behind it.
pub fn lower_variable<L: RecordLowering>(
    path: &Vec<TokenKey>,
    range: TokenRange,
    frame: &Frame<'_>,
    scope: &Scope<'_>,
    at: &Slots,
    low: &L,
) -> (r: Result<Fragment, LoweringError>)
    ensures
        outcome(r) == variable(*low, *frame, path@, range, *scope, at@),
{
    if path.len() == 0 {
        return Err(unsupported("Variable(empty-path)", range));
    }
    let name: &String = match &path[0] {
        TokenKey::String(s, _, _) => s,
        _ => {
            return Err(unsupported("Variable(non-string-key)", range));
        },
    };
    if path.len() == 1 {
        match scope.lookup(name) {
            Some(b) => match b.constant {
                Some(c) => {
                    let (op, ty) = c.push();
                    return Ok(one_op(op, ty, range, at));
                },
                None => {},
            },
            None => {},
        }
    }
    let head: Head<'_> = match find_head(frame, name, scope) {
        None => {
            return Err(LoweringError::UnresolvedVariable { name: name.clone(), range });
        },
        Some(h) => h,
    };
    let Fragment { ops: first, .. } = one_op(head.op, head.ty, range, at);
    if path.len() == 1 {
        return Ok(Fragment { ops: first, ty: Some(head.ty), slots: at.copy() });
    }
    match scope.narrowing(name) {
        Some(n) => {
            let tail: &[TokenKey] = slice_subrange(path.as_slice(), 1, path.len());
            assert(tail@ =~= path@.skip(1));
            return append(
                first,
                lower_enum_payload_path(tail, n, head.ty, range, at, low),
            );
        },
        None => {},
    }
    if is_all_dynamic(path) {
        match find_index_form(head.ty, path.len() - 1) {
            Some(IndexForm::Rows) => {
                return lower_row_chain(path, range, scope, first, at, low);
            },
            Some(form) => match &path[1] {
                TokenKey::Dynamic(node, optional) => {
                    return append(
                        first,
                        lower_lone_index(form, node, *optional, range, scope, at, low),
                    );
                },
                _ => {},
            },
            None => {},
        }
    }
    lower_field_walk(path, range, head.schema, head.ty, first, at, low)
}

/// The brand of a single name.
pub open spec fn head_brand(frame: Frame<'_>, name: Seq<char>, scope: Scope<'_>) -> Option<
    Seq<char>,
> {
    if frame.self_binding is Some && name == "self"@ {
        Some(frame.self_binding->0.schema.name@)
    } else {
        match scope.find(name) {
            Some(b) => match b.schema_brand {
                Some(n) => Some(n@),
                None => None,
            },
            None => if frame.self_binding is Some {
                match method_param_index(frame.method_params@, name, 0) {
                    Some(i) => match frame.method_params@[i].schema {
                        Some(s) => Some(s.name@),
                        None => None,
                    },
                    None => None,
                }
            } else {
                match binding_index(frame.params@, name, 0) {
                    Some(i) => match frame.params@[i].schema_brand {
                        Some(n) => Some(n@),
                        None => None,
                    },
                    None => None,
                }
            },
        }
    }
}

/// The brand that the fields at and behind `from` lead to.
pub open spec fn walk_brand(schema: Option<Schema>, path: Seq<TokenKey>, from: int) -> Option<
    Seq<char>,
>
    decreases path.len() - from,
{
    match schema {
        None => None,
        Some(s) => if from < 0 || from >= path.len() {
            Some(s.name@)
        } else {
            match walk_field(s, path[from]) {
                Err(_) => None,
                Ok(field) => match field_index(s.fields@, field, 0) {
                    None => None,
                    Some(i) => walk_brand(field_schema(s.fields@[i].ty), path, from + 1),
                },
            }
        },
    }
}

/// The record brand of the value of a path.
pub open spec fn receiver_brand(frame: Frame<'_>, path: Seq<TokenKey>, scope: Scope<'_>) -> Option<
    Seq<char>,
> {
    if path.len() == 0 {
        None
    } else {
        match path[0] {
            TokenKey::String(name, _, _) => if path.len() == 1 {
                head_brand(frame, name@, scope)
            } else {
                match head_of(frame, name@, scope) {
                    Some(head) => walk_brand(head.schema, path, 1),
                    None => None,
                }
            },
            _ => None,
        }
    }
}

fn find_head_brand<'n>(frame: &'n Frame<'_>, name: &String, scope: &'n Scope<'_>) -> (r: Option<
    &'n String,
>)
    ensures
        head_brand(*frame, name@, *scope) == (match r {
            Some(n) => Some(n@),
            None => None,
        }),
{
    match frame.self_binding {
        Some(s) => {
            if text_is(name, "self") {
                return Some(&s.schema.name);
            }
        },
        None => {},
    }
    match scope.lookup(name) {
        Some(b) => match &b.schema_brand {
            Some(n) => Some(n),
            None => None,
        },
        None => {
            if frame.self_binding.is_some() {
                match find_method_param(frame.method_params, name) {
                    Some(p) => match &p.schema {
                        Some(s) => Some(&s.name),
                        None => None,
                    },
                    None => None,
                }
            } else {
                match find_binding(frame.params, name) {
                    Some(b) => match &b.schema_brand {
                        Some(n) => Some(n),
                        None => None,
                    },
                    None => None,
                }
            }
        },
    }
}

/// Executable form of [`receiver_brand`].
pub fn resolve_receiver_schema_brand<'n>(
    path: &Vec<TokenKey>,
    frame: &'n Frame<'_>,
    scope: &'n Scope<'_>,
) -> (r: Option<&'n String>)
    ensures
        receiver_brand(*frame, path@, *scope) == (match r {
            Some(n) => Some(n@),
            None => None,
        }),
{
    if path.len() == 0 {
        return None;
    }
    let name: &String = match &path[0] {
        TokenKey::String(s, _, _) => s,
        _ => {
            return None;
        },
    };
    if path.len() == 1 {
        return find_head_brand(frame, name, scope);
    }
    let mut current: Option<&'n Schema> = match find_head(frame, name, scope) {
        Some(h) => h.schema,
        None => {
            return None;
        },
    };
    let mut i: usize = 1;
    let ghost whole = receiver_brand(*frame, path@, *scope);
    while i < path.len()
        invariant
            1 <= i <= path@.len(),
            whole == receiver_brand(*frame, path@, *scope),
            whole == walk_brand(schema_value(current), path@, i as int),
        decreases path@.len() - i,
    {
        let s: &'n Schema = match current {
            None => {
                return None;
            },
            Some(s) => s,
        };
        let field: String = match walk_field_name(s, &path[i]) {
            Err(_) => {
                return None;
            },
            Ok(f) => f,
        };
        match find_field_index(&s.fields, field.as_str()) {
            None => {
                return None;
            },
            Some(k) => {
                current = match &s.fields[k].ty {
                    TypeRepr::Schema { schema } => Some(&**schema),
                    _ => None,
                };
            },
        }
        i += 1;
    }
    match current {
        Some(s) => Some(&s.name),
        None => None,
    }
}

/// A let binding hides an entry parameter of the same name.
pub proof fn law_let_hides_parameter(
    frame: Frame<'_>,
    name: Seq<char>,
    scope: Scope<'_>,
    other: Frame<'_>,
)
    requires
        scope.find(name) is Some,
        frame.self_binding is None,
        other.self_binding is None,
        frame.types == other.types,
    ensures
        head_of(frame, name, scope) == head_of(other, name, scope),
{
}

/// A reference to a sibling and a plain variable of the same name read the
/// same let binding.
pub proof fn law_reference_reads_as_variable<L: RecordLowering>(
    low: L,
    frame: Frame<'_>,
    base: RefBase,
    path: Seq<TokenKey>,
    range: TokenRange,
    scope: Scope<'_>,
    at: SlotsView,
)
    requires
        field_base(base),
        plain_name(path) matches Some(name) && scope.find(name) is Some && !(
        frame.self_binding is Some && name == "self"@),
    ensures
        reference(base, path, range, scope, at) == variable(low, frame, path, range, scope, at),
{
}

} // verus!

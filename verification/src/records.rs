//! Values lowered against an expected canonical type, and the records that
//! variants and nested records are built in.

use vstd::prelude::*;

use crate::ast::{all_positional, positional_only, CallArg, Expr, Node, TokenRange};
use crate::comprehension::{lower_comprehension_as_type, variant_comprehension};
use crate::error::{unsupported, ErrorView, LoweringError};
use crate::fragment::{
    maybe_outcome, one_op, outcome, Fragment, FragmentView, LeafLowering, Scope, Slots, SlotsView,
    SubLowering,
};
use crate::ir::{
    emit_all, emit_simple, ops_view, sop, texts, IrType, SimpleOp, TaggedOp, TaggedOpView,
};
use crate::shape::{ir_type_of, type_repr_to_ir_type, unsupported_type};
use crate::stdlib::StdlibTable;
use crate::text::{decimal, decimal_chars, join2, join3, same_text};
use crate::types::{schema_view, Field, Schema, TypeRepr};
use crate::variant::{
    body_not_dict, is_variant_list, is_variant_type, law_payload_offset, law_variant_align_is_small,
    lemma_payload_value_is_field, payload_node, payload_offset, payload_slot_layout_for_lowering,
    payload_value, slot_layout, standard_variant_shape, variant_align, variant_body_pairs,
    variant_name_from_path, variant_named, variant_payload_node,
    variant_payload_offset_for_lowering, variant_record_alignment_for_lowering,
    variant_record_list_element, variant_shape, VariantPayloadShape,
};

verus! {

/// Where a record field lives: inline, or behind a pointer.
#[derive(Clone, Copy, Debug, PartialEq, Eq, Structural)]
pub struct FieldSlot {
    pub offset: u32,
    pub inline: bool,
}

/// The layout of a record type, field by field.
#[derive(Debug, PartialEq, Eq)]
pub struct OffsetTable {
    pub root_size: u32,
    pub root_align: u32,
    pub fields: Vec<FieldSlot>,
}

/// The mathematical value of an [`OffsetTable`].
pub ghost struct LayoutView {
    pub root_size: u32,
    pub root_align: u32,
    pub fields: Seq<FieldSlot>,
}

impl View for OffsetTable {
    type V = LayoutView;

    open spec fn view(&self) -> LayoutView {
        LayoutView { root_size: self.root_size, root_align: self.root_align, fields: self.fields@ }
    }
}

/// The mathematical value of a layout result.
pub open spec fn layout_outcome(r: Result<OffsetTable, LoweringError>) -> Result<
    LayoutView,
    ErrorView,
> {
    match r {
        Ok(l) => Ok(l@),
        Err(e) => Err(e@),
    }
}

/// How the fields of a record are filled.
#[derive(Clone, Copy, Debug, PartialEq, Eq, Structural)]
pub enum RecordBody {
    /// A dictionary of a declared record type.
    Declared,
    /// A dictionary of an anonymous record type.
    Plain,
    /// A tuple.
    Tuple,
}

/// What typed lowering asks for beyond [`SubLowering`]. Each method answers as
/// a function of its arguments.
pub trait RecordLowering: SubLowering {
    /// The layout of a record type.
    spec fn layout(&self, schema: Schema) -> Result<LayoutView, ErrorView>;

    /// Computes the layout of a record type; it has one slot per field.
    fn offsets_for(&self, schema: &Schema) -> (r: Result<OffsetTable, LoweringError>)
        ensures
            layout_outcome(r) == self.layout(*schema),
            r matches Ok(l) ==> l.fields@.len() == schema.fields@.len(),
    ;

    /// Whether a record type of this name is declared in source.
    spec fn declared(&self, name: Seq<char>) -> bool;

    /// Executable form of [`RecordLowering::declared`].
    fn is_declared(&self, name: &String) -> (r: bool)
        ensures
            r == self.declared(name@),
    ;

    /// The stores that fill a record from a dictionary or tuple literal.
    spec fn record_body(
        &self,
        kind: RecordBody,
        schema: Schema,
        value: Node,
        record: u32,
        range: TokenRange,
        scope: Scope<'_>,
        at: SlotsView,
    ) -> Result<FragmentView, ErrorView>;

    /// Lowers the stores that fill a record.
    fn lower_record_body(
        &self,
        kind: RecordBody,
        schema: &Schema,
        value: &Node,
        record: u32,
        range: TokenRange,
        scope: &Scope<'_>,
        at: &Slots,
    ) -> (r: Result<Fragment, LoweringError>)
        ensures
            outcome(r) == self.record_body(kind, *schema, *value, record, range, *scope, at@),
    ;

    /// The value of one record field.
    spec fn field_value(
        &self,
        schema: Schema,
        index: int,
        value: Node,
        scope: Scope<'_>,
        at: SlotsView,
    ) -> Result<FragmentView, ErrorView>;

    /// Lowers the value of one record field.
    fn lower_field_value(
        &self,
        schema: &Schema,
        index: usize,
        value: &Node,
        scope: &Scope<'_>,
        at: &Slots,
    ) -> (r: Result<Fragment, LoweringError>)
        ensures
            outcome(r) == self.field_value(*schema, index as int, *value, *scope, at@),
    ;

    /// A ternary whose arms are lowered against an expected type.
    spec fn typed_ternary(
        &self,
        expected: TypeRepr,
        value: Node,
        scope: Scope<'_>,
        at: SlotsView,
    ) -> Result<FragmentView, ErrorView>;

    /// Lowers a ternary against an expected type.
    fn lower_typed_ternary(
        &self,
        expected: &TypeRepr,
        value: &Node,
        scope: &Scope<'_>,
        at: &Slots,
    ) -> (r: Result<Fragment, LoweringError>)
        ensures
            outcome(r) == self.typed_ternary(*expected, *value, *scope, at@),
    ;

    /// A call of `map` or `filter` that yields variant records of the given
    /// type, if it is one.
    spec fn variant_list_call(
        &self,
        element: TypeRepr,
        value: Node,
        scope: Scope<'_>,
        at: SlotsView,
    ) -> Result<Option<FragmentView>, ErrorView>;

    /// Lowers a call that yields a list of variant records.
    fn lower_variant_list_call(
        &self,
        element: &TypeRepr,
        value: &Node,
        scope: &Scope<'_>,
        at: &Slots,
    ) -> (r: Result<Option<Fragment>, LoweringError>)
        ensures
            maybe_outcome(r) == self.variant_list_call(*element, *value, *scope, at@),
    ;
}

/// What a typed lowering works with: the sub-lowerings, the routine table, and
/// whether variant records are built in scratch memory.
pub struct RecordEnv<'a, L> {
    pub low: &'a L,
    pub table: &'a StdlibTable,
    pub in_scratch: bool,
}

// ---------------------------------------------------------------------------
// Record instructions.
// ---------------------------------------------------------------------------

/// The allocation of a record.
pub open spec fn alloc_op(in_scratch: bool, record: u32, size: u32, align: u32) -> SimpleOp {
    if in_scratch {
        SimpleOp::AllocScratchRecord { record_local_idx: record, root_size: size, root_align: align }
    } else {
        SimpleOp::AllocSubRecord { record_local_idx: record, root_size: size, root_align: align }
    }
}

/// Executable form of [`alloc_op`].
pub fn alloc_record_op(in_scratch: bool, record_local: u32, root_size: u32, root_align: u32) -> (r:
    SimpleOp)
    ensures
        r == alloc_op(in_scratch, record_local, root_size, root_align),
{
    if in_scratch {
        SimpleOp::AllocScratchRecord { record_local_idx: record_local, root_size, root_align }
    } else {
        SimpleOp::AllocSubRecord { record_local_idx: record_local, root_size, root_align }
    }
}

/// The store of a record field.
pub open spec fn field_store_op(
    in_scratch: bool,
    record: u32,
    offset: u32,
    ty: IrType,
) -> SimpleOp {
    if in_scratch {
        SimpleOp::StoreFieldAtRecordAbsolute { record_local_idx: record, offset, ty }
    } else {
        SimpleOp::StoreFieldAtRecord { record_local_idx: record, offset, ty }
    }
}

/// Executable form of [`field_store_op`].
pub fn store_field_at_record_op(in_scratch: bool, record_local: u32, offset: u32, ty: IrType) -> (r:
    SimpleOp)
    ensures
        r == field_store_op(in_scratch, record_local, offset, ty),
{
    if in_scratch {
        SimpleOp::StoreFieldAtRecordAbsolute { record_local_idx: record_local, offset, ty }
    } else {
        SimpleOp::StoreFieldAtRecord { record_local_idx: record_local, offset, ty }
    }
}

/// The address of a record relative to the output base, made absolute.
pub open spec fn base_as_absolute(record: u32, range: TokenRange) -> Seq<TaggedOpView> {
    seq![
        sop(SimpleOp::PushRecordBase { record_local_idx: record }, range),
        sop(SimpleOp::LocalGet(2), range),
        sop(SimpleOp::Add(IrType::I32), range),
    ]
}

/// Appends [`base_as_absolute`].
pub fn push_record_base_as_absolute(record_local: u32, range: TokenRange, out: &mut Vec<TaggedOp>)
    ensures
        ops_view(final(out)@) == ops_view(old(out)@) + base_as_absolute(record_local, range),
{
    emit_simple(out, SimpleOp::PushRecordBase { record_local_idx: record_local }, range);
    emit_simple(out, SimpleOp::LocalGet(2), range);
    emit_simple(out, SimpleOp::Add(IrType::I32), range);
    assert(ops_view(out@) =~= ops_view(old(out)@) + base_as_absolute(record_local, range));
}

/// The pointer to a record, left on the stack.
pub open spec fn base_pointer(in_scratch: bool, record: u32, range: TokenRange) -> Seq<
    TaggedOpView,
> {
    if in_scratch {
        seq![sop(SimpleOp::PushRecordBaseAbsolute { record_local_idx: record }, range)]
    } else {
        base_as_absolute(record, range)
    }
}

/// Appends [`base_pointer`].
pub fn push_record_base_for_pointer(
    in_scratch: bool,
    record_local: u32,
    range: TokenRange,
    out: &mut Vec<TaggedOp>,
)
    ensures
        ops_view(final(out)@) == ops_view(old(out)@) + base_pointer(
            in_scratch,
            record_local,
            range,
        ),
{
    if in_scratch {
        emit_simple(
            out,
            SimpleOp::PushRecordBaseAbsolute { record_local_idx: record_local },
            range,
        );
        assert(ops_view(out@) =~= ops_view(old(out)@) + base_pointer(
            in_scratch,
            record_local,
            range,
        ));
    } else {
        push_record_base_as_absolute(record_local, range, out);
    }
}

/// The instruction type of a record field or payload: nested records are
/// pointers, everything else as at the boundary.
pub open spec fn record_ir_type(t: TypeRepr) -> Option<IrType> {
    match t {
        TypeRepr::Schema { .. } => Some(IrType::I32),
        other => ir_type_of(other),
    }
}

/// Executable form of [`record_ir_type`].
pub fn type_repr_to_ir_type_dict(t: &TypeRepr) -> (r: Result<IrType, LoweringError>)
    ensures
        match r {
            Ok(ty) => record_ir_type(*t) == Some(ty),
            Err(e) => record_ir_type(*t) is None && e@ == unsupported_type(*t),
        },
{
    match t {
        TypeRepr::Schema { .. } => Ok(IrType::I32),
        other => type_repr_to_ir_type(other),
    }
}

/// The fields are named by their positions.
pub open spec fn positional_fields(fields: Seq<Field>) -> bool {
    forall|i: int|
        0 <= i < fields.len() ==> (#[trigger] fields[i]).name@ == decimal_chars(i as nat)
}

/// Executable form of [`positional_fields`].
pub fn fields_are_tuple_payload(fields: &Vec<Field>) -> (r: bool)
    ensures
        r == positional_fields(fields@),
{
    let mut i: usize = 0;
    while i < fields.len()
        invariant
            i <= fields.len(),
            forall|k: int|
                0 <= k < i ==> (#[trigger] fields@[k]).name@ == decimal_chars(k as nat),
        decreases fields.len() - i,
    {
        let expected: String = decimal(i);
        if !same_text(fields[i].name.as_str(), expected.as_str()) {
            assert(fields@[i as int].name@ != decimal_chars(i as nat));
            return false;
        }
        i += 1;
    }
    true
}

// ---------------------------------------------------------------------------
// Variant records.
// ---------------------------------------------------------------------------

/// The instruction that builds a variant record.
pub open spec fn build_op(
    in_scratch: bool,
    tag: u8,
    size: u32,
    align: u32,
    offset: Option<u32>,
    ty: Option<IrType>,
) -> SimpleOp {
    if in_scratch {
        SimpleOp::BuildVariantRecordScratch {
            tag,
            record_size: size,
            record_align: align,
            payload_offset: offset,
            payload_ty: ty,
        }
    } else {
        SimpleOp::BuildVariantRecord {
            tag,
            record_size: size,
            record_align: align,
            payload_offset: offset,
            payload_ty: ty,
        }
    }
}

/// `variant `name` rest`.
pub open spec fn about_variant(name: Seq<char>, rest: Seq<char>) -> Seq<char> {
    "variant `"@ + name + "`"@ + rest
}

fn variant_message(name: &str, rest: &str) -> (r: String)
    ensures
        r@ == about_variant(name@, rest@),
{
    join3("variant `", name, "`").concat(rest)
}

/// A variant record around a lowered payload: one tag byte, then the payload
/// at its alignment.
pub open spec fn variant_record(
    expected: TypeRepr,
    variant: Seq<char>,
    tag: u8,
    payload: Option<(TypeRepr, FragmentView)>,
    in_scratch: bool,
    range: TokenRange,
    at: SlotsView,
) -> Result<FragmentView, ErrorView> {
    match variant_align(expected) {
        Err(e) => Err(e),
        Ok(align) => match payload {
            None => Ok(
                FragmentView {
                    ops: seq![
                        sop(build_op(in_scratch, tag, 1, align as u32, None, None), range),
                    ],
                    ty: Some(IrType::I32),
                    slots: at,
                },
            ),
            Some((ty, f)) => match record_ir_type(ty) {
                None => Err(unsupported_type(ty)),
                Some(ir) => match f.ty {
                    None => Err(
                        ErrorView::UnsupportedExpr {
                            kind: about_variant(variant, " payload produced no value"@),
                            range,
                        },
                    ),
                    Some(top) => if top.slot_spec() != ir.slot_spec() {
                        Err(
                            ErrorView::UnsupportedExpr {
                                kind: about_variant(variant, " payload produced "@) + top.tag()
                                    + ", expected "@ + ir.tag(),
                                range,
                            },
                        )
                    } else {
                        match (slot_layout(ty), payload_offset(ty)) {
                            (Some((size, _)), Some(offset)) => Ok(
                                FragmentView {
                                    ops: f.ops.push(
                                        sop(
                                            build_op(
                                                in_scratch,
                                                tag,
                                                (offset + size) as u32,
                                                align as u32,
                                                Some(offset as u32),
                                                Some(ir),
                                            ),
                                            range,
                                        ),
                                    ),
                                    ty: Some(IrType::I32),
                                    slots: f.slots,
                                },
                            ),
                            _ => Err(unsupported_type(ty)),
                        }
                    },
                },
            },
        },
    }
}

fn build_variant_op(
    in_scratch: bool,
    tag: u8,
    record_size: u32,
    record_align: u32,
    payload_offset: Option<u32>,
    payload_ty: Option<IrType>,
) -> (r: SimpleOp)
    ensures
        r == build_op(in_scratch, tag, record_size, record_align, payload_offset, payload_ty),
{
    if in_scratch {
        SimpleOp::BuildVariantRecordScratch {
            tag,
            record_size,
            record_align,
            payload_offset,
            payload_ty,
        }
    } else {
        SimpleOp::BuildVariantRecord { tag, record_size, record_align, payload_offset, payload_ty }
    }
}

/// Emits a variant record around an already lowered payload.
pub fn emit_variant_record_from_lowered_payload(
    expected: &TypeRepr,
    variant: &str,
    tag: u8,
    payload: Option<(&TypeRepr, Fragment)>,
    in_scratch: bool,
    range: TokenRange,
    at: &Slots,
) -> (r: Result<Fragment, LoweringError>)
    ensures
        outcome(r) == variant_record(
            *expected,
            variant@,
            tag,
            (match payload {
                Some((ty, f)) => Some((*ty, f@)),
                None => None,
            }),
            in_scratch,
            range,
            at@,
        ),
{
    let align: usize = match variant_record_alignment_for_lowering(expected) {
        Err(e) => {
            return Err(e);
        },
        Ok(a) => a,
    };
    proof {
        law_variant_align_is_small(*expected);
    }
    match payload {
        None => Ok(
            one_op(
                build_variant_op(in_scratch, tag, 1, align as u32, None, None),
                IrType::I32,
                range,
                at,
            ),
        ),
        Some((ty, f)) => {
            let ir = match type_repr_to_ir_type_dict(ty) {
                Err(e) => {
                    return Err(e);
                },
                Ok(ir) => ir,
            };
            let top = match f.ty {
                None => {
                    return Err(
                        LoweringError::UnsupportedExpr {
                            kind: variant_message(variant, " payload produced no value"),
                            range,
                        },
                    );
                },
                Some(t) => t,
            };
            if top.wasm_slot() != ir.wasm_slot() {
                let kind: String = variant_message(variant, " payload produced ").concat(
                    top.name(),
                ).concat(", expected ").concat(ir.name());
                return Err(LoweringError::UnsupportedExpr { kind, range });
            }
            let (size, _) = match payload_slot_layout_for_lowering(ty) {
                Err(e) => {
                    return Err(e);
                },
                Ok(l) => l,
            };
            let offset: usize = match variant_payload_offset_for_lowering(ty) {
                Err(e) => {
                    return Err(e);
                },
                Ok(o) => o,
            };
            proof {
                law_payload_offset(*ty);
            }
            let Fragment { ops, slots, .. } = f;
            let mut out = ops;
            emit_simple(
                &mut out,
                build_variant_op(
                    in_scratch,
                    tag,
                    (offset + size) as u32,
                    align as u32,
                    Some(offset as u32),
                    Some(ir),
                ),
                range,
            );
            Ok(Fragment { ops: out, ty: Some(IrType::I32), slots })
        },
    }
}

// ---------------------------------------------------------------------------
// Nested records.
// ---------------------------------------------------------------------------

/// A freshly allocated record, filled, and its pointer.
pub open spec fn filled_record<L: RecordLowering>(
    env: RecordEnv<'_, L>,
    kind: RecordBody,
    schema: Schema,
    value: Node,
    range: TokenRange,
    scope: Scope<'_>,
    at: SlotsView,
) -> Result<FragmentView, ErrorView> {
    match env.low.layout(schema) {
        Err(e) => Err(e),
        Ok(layout) => match env.low.record_body(
            kind,
            schema,
            value,
            at.records,
            range,
            scope,
            at.after_record(),
        ) {
            Err(e) => Err(e),
            Ok(body) => Ok(
                FragmentView {
                    ops: seq![
                        sop(
                            alloc_op(
                                env.in_scratch,
                                at.records,
                                layout.root_size,
                                layout.root_align,
                            ),
                            range,
                        ),
                    ] + body.ops + base_pointer(env.in_scratch, at.records, range),
                    ty: Some(IrType::I32),
                    slots: body.slots,
                },
            ),
        },
    }
}

fn emit_filled_record<L: RecordLowering>(
    env: &RecordEnv<'_, L>,
    kind: RecordBody,
    schema: &Schema,
    value: &Node,
    range: TokenRange,
    scope: &Scope<'_>,
    at: &Slots,
) -> (r: Result<Fragment, LoweringError>)
    ensures
        outcome(r) == filled_record(*env, kind, *schema, *value, range, *scope, at@),
{
    let layout = match env.low.offsets_for(schema) {
        Err(e) => {
            return Err(e);
        },
        Ok(l) => l,
    };
    let (record, next) = at.alloc_record_local();
    let body = match env.low.lower_record_body(kind, schema, value, record, range, scope, &next) {
        Err(e) => {
            return Err(e);
        },
        Ok(f) => f,
    };
    let mut out: Vec<TaggedOp> = Vec::new();
    emit_simple(
        &mut out,
        alloc_record_op(env.in_scratch, record, layout.root_size, layout.root_align),
        range,
    );
    assert(ops_view(out@) =~= seq![
        sop(
            alloc_op(env.in_scratch, at.records, layout.root_size, layout.root_align),
            range,
        ),
    ]);
    let slots: Slots = body.slots;
    emit_all(&mut out, body.ops);
    push_record_base_for_pointer(env.in_scratch, record, range, &mut out);
    Ok(Fragment { ops: out, ty: Some(IrType::I32), slots })
}

/// A value of a record type as a pointer: literals are built in place, other
/// expressions are lowered as they are.
pub open spec fn schema_value<L: RecordLowering>(
    env: RecordEnv<'_, L>,
    schema: Schema,
    value: Node,
    range: TokenRange,
    scope: Scope<'_>,
    at: SlotsView,
) -> Result<FragmentView, ErrorView> {
    match *value.expr {
        Expr::Dict(_) => if !schema.is_tuple {
            filled_record(
                env,
                if env.low.declared(schema.name@) {
                    RecordBody::Declared
                } else {
                    RecordBody::Plain
                },
                schema,
                value,
                range,
                scope,
                at,
            )
        } else {
            env.low.lowered(value, scope, at)
        },
        Expr::Tuple(elements) => if !schema.is_tuple {
            env.low.lowered(value, scope, at)
        } else if elements@.len() != schema.fields@.len() {
            Err(
                ErrorView::UnsupportedExpr {
                    kind: "tuple payload has "@ + decimal_chars(elements@.len())
                        + " elements but schema declares "@ + decimal_chars(schema.fields@.len()),
                    range,
                },
            )
        } else {
            filled_record(env, RecordBody::Tuple, schema, value, range, scope, at)
        },
        _ => env.low.lowered(value, scope, at),
    }
}

/// Lowers a value of a record type to a pointer.
pub fn lower_schema_value_as_absolute_pointer<L: RecordLowering>(
    env: &RecordEnv<'_, L>,
    schema: &Schema,
    value: &Node,
    range: TokenRange,
    scope: &Scope<'_>,
    at: &Slots,
) -> (r: Result<Fragment, LoweringError>)
    ensures
        outcome(r) == schema_value(*env, *schema, *value, range, *scope, at@),
{
    match &*value.expr {
        Expr::Dict(_) => {
            if schema.is_tuple {
                return env.low.lower_node(value, scope, at);
            }
            let kind = if env.low.is_declared(&schema.name) {
                RecordBody::Declared
            } else {
                RecordBody::Plain
            };
            emit_filled_record(env, kind, schema, value, range, scope, at)
        },
        Expr::Tuple(elements) => {
            if !schema.is_tuple {
                return env.low.lower_node(value, scope, at);
            }
            if elements.len() != schema.fields.len() {
                let have: String = decimal(elements.len());
                let want: String = decimal(schema.fields.len());
                let kind: String = join3(
                    "tuple payload has ",
                    have.as_str(),
                    " elements but schema declares ",
                ).concat(want.as_str());
                return Err(LoweringError::UnsupportedExpr { kind, range });
            }
            emit_filled_record(env, RecordBody::Tuple, schema, value, range, scope, at)
        },
        _ => env.low.lower_node(value, scope, at),
    }
}

/// The stores of the positional payload fields of a variant.
pub open spec fn payload_fields<L: RecordLowering>(
    env: RecordEnv<'_, L>,
    schema: Schema,
    slots: Seq<FieldSlot>,
    args: Seq<CallArg>,
    record: u32,
    scope: Scope<'_>,
    at: SlotsView,
) -> Result<FragmentView, ErrorView>
    decreases args.len(),
{
    if args.len() == 0 {
        Ok(FragmentView { ops: Seq::empty(), ty: None, slots: at })
    } else {
        match payload_fields(env, schema, slots, args.drop_last(), record, scope, at) {
            Err(e) => Err(e),
            Ok(pre) => payload_field(
                env,
                schema,
                slots[args.len() - 1],
                args.len() - 1,
                args.last().value,
                record,
                pre,
                scope,
            ),
        }
    }
}

/// One more positional payload field behind `pre`.
pub open spec fn payload_field<L: RecordLowering>(
    env: RecordEnv<'_, L>,
    schema: Schema,
    slot: FieldSlot,
    index: int,
    value: Node,
    record: u32,
    pre: FragmentView,
    scope: Scope<'_>,
) -> Result<FragmentView, ErrorView> {
    match env.low.field_value(schema, index, value, scope, pre.slots) {
        Err(e) => Err(e),
        Ok(f) => match record_ir_type(schema.fields@[index].ty) {
            None => Err(unsupported_type(schema.fields@[index].ty)),
            Some(ir) => {
                let store = if slot.inline {
                    ir
                } else {
                    IrType::I32
                };
                let field = "tuple variant field "@ + decimal_chars(index as nat);
                match f.ty {
                    None => Err(
                        ErrorView::UnsupportedExpr {
                            kind: field + " produced no value"@,
                            range: value.range,
                        },
                    ),
                    Some(top) => if top != store {
                        Err(
                            ErrorView::UnsupportedExpr {
                                kind: field + ": got "@ + top.tag() + ", expected "@ + store.tag(),
                                range: value.range,
                            },
                        )
                    } else {
                        Ok(
                            FragmentView {
                                ops: (pre.ops + f.ops).push(
                                    sop(
                                        field_store_op(env.in_scratch, record, slot.offset, store),
                                        value.range,
                                    ),
                                ),
                                ty: None,
                                slots: f.slots,
                            },
                        )
                    },
                }
            },
        },
    }
}

proof fn lemma_payload_fields_prefix<L: RecordLowering>(
    env: RecordEnv<'_, L>,
    schema: Schema,
    slots: Seq<FieldSlot>,
    args: Seq<CallArg>,
    record: u32,
    scope: Scope<'_>,
    at: SlotsView,
    k: int,
)
    requires
        0 <= k <= args.len(),
        payload_fields(env, schema, slots, args.take(k), record, scope, at) is Err,
    ensures
        payload_fields(env, schema, slots, args, record, scope, at) == payload_fields(
            env,
            schema,
            slots,
            args.take(k),
            record,
            scope,
            at,
        ),
    decreases args.len(),
{
    if k == args.len() {
        assert(args.take(k) =~= args);
    } else {
        assert(args.drop_last().take(k) =~= args.take(k));
        lemma_payload_fields_prefix(env, schema, slots, args.drop_last(), record, scope, at, k);
    }
}

fn emit_payload_field<L: RecordLowering>(
    env: &RecordEnv<'_, L>,
    schema: &Schema,
    slot: FieldSlot,
    index: usize,
    value: &Node,
    record: u32,
    pre: Fragment,
    scope: &Scope<'_>,
) -> (r: Result<Fragment, LoweringError>)
    requires
        index < schema.fields@.len(),
    ensures
        outcome(r) == payload_field(
            *env,
            *schema,
            slot,
            index as int,
            *value,
            record,
            pre@,
            *scope,
        ),
{
    let Fragment { ops: pre_ops, slots: pre_slots, .. } = pre;
    let f = match env.low.lower_field_value(schema, index, value, scope, &pre_slots) {
        Err(e) => {
            return Err(e);
        },
        Ok(f) => f,
    };
    let ir = match type_repr_to_ir_type_dict(&schema.fields[index].ty) {
        Err(e) => {
            return Err(e);
        },
        Ok(ir) => ir,
    };
    let store = if slot.inline {
        ir
    } else {
        IrType::I32
    };
    let position: String = decimal(index);
    let field: String = join2("tuple variant field ", position.as_str());
    let top = match f.ty {
        None => {
            return Err(
                LoweringError::UnsupportedExpr {
                    kind: field.concat(" produced no value"),
                    range: value.range,
                },
            );
        },
        Some(t) => t,
    };
    if top != store {
        let kind: String = field.concat(": got ").concat(top.name()).concat(", expected ").concat(
            store.name(),
        );
        return Err(LoweringError::UnsupportedExpr { kind, range: value.range });
    }
    let mut out = pre_ops;
    let slots: Slots = f.slots;
    emit_all(&mut out, f.ops);
    emit_simple(
        &mut out,
        store_field_at_record_op(env.in_scratch, record, slot.offset, store),
        value.range,
    );
    Ok(Fragment { ops: out, ty: None, slots })
}

fn emit_payload_fields<L: RecordLowering>(
    env: &RecordEnv<'_, L>,
    schema: &Schema,
    layout: &OffsetTable,
    args: &Vec<CallArg>,
    record: u32,
    scope: &Scope<'_>,
    at: &Slots,
) -> (r: Result<Fragment, LoweringError>)
    requires
        args@.len() == schema.fields@.len(),
        layout.fields@.len() == schema.fields@.len(),
    ensures
        outcome(r) == payload_fields(
            *env,
            *schema,
            layout.fields@,
            args@,
            record,
            *scope,
            at@,
        ),
{
    let mut pre = Fragment { ops: Vec::new(), ty: None, slots: at.copy() };
    let mut i: usize = 0;
    assert(args@.take(0) =~= Seq::empty());
    assert(ops_view(pre.ops@) =~= Seq::empty());
    while i < args.len()
        invariant
            i <= args.len(),
            args@.len() == schema.fields@.len(),
            layout.fields@.len() == schema.fields@.len(),
            payload_fields(
                *env,
                *schema,
                layout.fields@,
                args@.take(i as int),
                record,
                *scope,
                at@,
            ) == Ok::<FragmentView, ErrorView>(pre@),
        decreases args.len() - i,
    {
        assert(args@.take(i + 1).drop_last() =~= args@.take(i as int));
        assert(args@.take(i + 1).last() == args@[i as int]);
        match emit_payload_field(
            env,
            schema,
            layout.fields[i],
            i,
            &args[i].value,
            record,
            pre,
            scope,
        ) {
            Err(e) => {
                proof {
                    lemma_payload_fields_prefix(
                        *env,
                        *schema,
                        layout.fields@,
                        args@,
                        record,
                        *scope,
                        at@,
                        i + 1,
                    );
                }
                return Err(e);
            },
            Ok(f) => {
                pre = f;
            },
        }
        i += 1;
    }
    assert(args@.take(args@.len() as int) =~= args@);
    Ok(pre)
}

// ---------------------------------------------------------------------------
// Typed values.
// ---------------------------------------------------------------------------

/// A variant record around the lowering of its payload.
pub open spec fn record_around(
    expected: TypeRepr,
    variant: Seq<char>,
    tag: u8,
    ty: TypeRepr,
    payload: Result<FragmentView, ErrorView>,
    in_scratch: bool,
    range: TokenRange,
    at: SlotsView,
) -> Result<FragmentView, ErrorView> {
    match payload {
        Err(e) => Err(e),
        Ok(f) => variant_record(expected, variant, tag, Some((ty, f)), in_scratch, range, at),
    }
}

/// A variant written as a bare name.
pub open spec fn bare_variant(
    expected: TypeRepr,
    variant: Seq<char>,
    in_scratch: bool,
    range: TokenRange,
    at: SlotsView,
) -> Result<FragmentView, ErrorView> {
    match variant_shape(&expected, None, variant, range) {
        Err(e) => Err(e),
        Ok(shape) => if shape.payload is Some {
            Err(
                ErrorView::UnsupportedExpr {
                    kind: about_variant(variant, " requires a payload"@),
                    range,
                },
            )
        } else {
            variant_record(expected, variant, shape.tag, None, in_scratch, range, at)
        },
    }
}

/// A variant whose payload is the record of its positional fields.
pub open spec fn tuple_variant<L: RecordLowering>(
    env: RecordEnv<'_, L>,
    expected: TypeRepr,
    variant: Seq<char>,
    tag: u8,
    ty: TypeRepr,
    args: Seq<CallArg>,
    range: TokenRange,
    scope: Scope<'_>,
    at: SlotsView,
) -> Result<FragmentView, ErrorView> {
    match ty {
        TypeRepr::Schema { schema } => if !positional_fields(schema.fields@) {
            Err(
                ErrorView::UnsupportedExpr {
                    kind: "struct "@ + about_variant(
                        variant,
                        " must be constructed with `{ ... }`"@,
                    ),
                    range,
                },
            )
        } else if args.len() != schema.fields@.len() || !all_positional(args) {
            Err(
                ErrorView::UnsupportedExpr {
                    kind: variant + "(...) expects "@ + decimal_chars(schema.fields@.len())
                        + " positional payload values"@,
                    range,
                },
            )
        } else {
            match env.low.layout(*schema) {
                Err(e) => Err(e),
                Ok(layout) => match payload_fields(
                    env,
                    *schema,
                    layout.fields,
                    args,
                    at.records,
                    scope,
                    at.after_record(),
                ) {
                    Err(e) => Err(e),
                    Ok(body) => record_around(
                        expected,
                        variant,
                        tag,
                        ty,
                        Ok(
                            FragmentView {
                                ops: seq![
                                    sop(
                                        alloc_op(
                                            env.in_scratch,
                                            at.records,
                                            layout.root_size,
                                            layout.root_align,
                                        ),
                                        range,
                                    ),
                                ] + body.ops + base_pointer(env.in_scratch, at.records, range),
                                ty: Some(IrType::I32),
                                slots: body.slots,
                            },
                        ),
                        env.in_scratch,
                        range,
                        at,
                    ),
                },
            }
        },
        _ => Err(
            ErrorView::UnsupportedExpr {
                kind: about_variant(variant, " payload is not a record"@),
                range,
            },
        ),
    }
}

/// A variant written as a call.
pub open spec fn called_variant<L: RecordLowering>(
    env: RecordEnv<'_, L>,
    expected: TypeRepr,
    variant: Seq<char>,
    args: Seq<CallArg>,
    range: TokenRange,
    scope: Scope<'_>,
    at: SlotsView,
) -> Result<FragmentView, ErrorView>
    decreases args, 2nat,
{
    match variant_shape(&expected, None, variant, range) {
        Err(e) => Err(e),
        Ok(shape) => match shape.payload {
            None => if args.len() == 0 {
                variant_record(expected, variant, shape.tag, None, env.in_scratch, range, at)
            } else {
                Err(
                    ErrorView::UnsupportedExpr {
                        kind: variant + "(...) does not take payload"@,
                        range,
                    },
                )
            },
            Some(payload) => if payload.key is Some {
                if args.len() != 1 || args[0].name is Some {
                    Err(
                        ErrorView::UnsupportedExpr {
                            kind: variant + "(...) expects exactly one positional payload"@,
                            range,
                        },
                    )
                } else {
                    record_around(
                        expected,
                        variant,
                        shape.tag,
                        *payload.ty,
                        typed_value(env, *payload.ty, args[0].value, scope, at),
                        env.in_scratch,
                        range,
                        at,
                    )
                }
            } else {
                tuple_variant(
                    env,
                    expected,
                    variant,
                    shape.tag,
                    *payload.ty,
                    args,
                    range,
                    scope,
                    at,
                )
            },
        },
    }
}

/// The node that a constructor's payload is written in: the field of a builtin
/// variant, or the whole body of an enum variant.
pub open spec fn ctor_payload(
    body: Node,
    payload: VariantPayloadShape<'_>,
    range: TokenRange,
) -> Result<
    Node,
    ErrorView,
> {
    match *body.expr {
        Expr::Dict(pairs) => match payload.key {
            Some(key) => payload_node(pairs@, key.text(), range),
            None => Ok(body),
        },
        other => Err(body_not_dict(other, range)),
    }
}

/// The payload of a constructor is its body or a part of it.
pub proof fn lemma_ctor_payload_smaller(
    body: Node,
    payload: VariantPayloadShape<'_>,
    range: TokenRange,
)
    ensures
        ctor_payload(body, payload, range) matches Ok(node) ==> node == body || decreases_to!(
            body => node
        ),
{
    match *body.expr {
        Expr::Dict(pairs) => {
            match payload.key {
                Some(key) => {
                    lemma_payload_value_is_field(pairs@, key.text(), range);
                    match payload_value(pairs@, key.text(), range) {
                        Ok(Some(node)) => {
                            let i = choose|i: int|
                                0 <= i < pairs@.len() && (#[trigger] pairs@[i]).1 == node;
                            assert(decreases_to!(body => body.expr));
                            assert(decreases_to!(*body.expr => pairs));
                            assert(decreases_to!(pairs => pairs@));
                            assert(decreases_to!(pairs@ => pairs@[i]));
                            assert(decreases_to!(pairs@[i] => pairs@[i].1));
                        },
                        _ => {},
                    }
                },
                None => {},
            }
        },
        _ => {},
    }
}

/// A variant written with a braced body.
pub open spec fn constructed_variant<L: RecordLowering>(
    env: RecordEnv<'_, L>,
    expected: TypeRepr,
    path: Seq<Seq<char>>,
    variant: Seq<char>,
    body: Node,
    range: TokenRange,
    scope: Scope<'_>,
    at: SlotsView,
) -> Result<FragmentView, ErrorView>
    decreases body, 2nat,
{
    match variant_shape(&expected, Some(path), variant, range) {
        Err(e) => Err(e),
        Ok(shape) => match shape.payload {
            Some(payload) => match ctor_payload(body, payload, range) {
                Err(e) => Err(e),
                Ok(node) => {
                    proof {
                        lemma_ctor_payload_smaller(body, payload, range);
                    }
                    record_around(
                        expected,
                        variant,
                        shape.tag,
                        *payload.ty,
                        typed_value(env, *payload.ty, node, scope, at),
                        env.in_scratch,
                        range,
                        at,
                    )
                },
            },
            None => match *body.expr {
                Expr::Dict(pairs) => if pairs@.len() != 0 {
                    Err(
                        ErrorView::UnsupportedExpr {
                            kind: about_variant(variant, " does not take payload fields"@),
                            range,
                        },
                    )
                } else {
                    variant_record(expected, variant, shape.tag, None, env.in_scratch, range, at)
                },
                other => Err(body_not_dict(other, range)),
            },
        },
    }
}

/// The pointers of the elements of a literal list of variant records.
pub open spec fn variant_items<L: RecordLowering>(
    env: RecordEnv<'_, L>,
    element: TypeRepr,
    items: Seq<Node>,
    scope: Scope<'_>,
    at: SlotsView,
) -> Result<FragmentView, ErrorView>
    decreases items, 0nat,
{
    if items.len() == 0 {
        Ok(FragmentView { ops: Seq::empty(), ty: None, slots: at })
    } else {
        match variant_items(env, element, items.drop_last(), scope, at) {
            Err(e) => Err(e),
            Ok(pre) => match typed_value(env, element, items.last(), scope, pre.slots) {
                Err(e) => Err(e),
                Ok(f) => match f.ty {
                    None => Err(
                        ErrorView::UnsupportedExpr {
                            kind: "List<Enum>(element produced no value)"@,
                            range: items.last().range,
                        },
                    ),
                    Some(top) => if top.slot_spec() != IrType::I32.slot_spec() {
                        Err(
                            ErrorView::UnsupportedExpr {
                                kind: "List<Enum>(element produced "@ + top.tag()
                                    + ", expected variant pointer)"@,
                                range: items.last().range,
                            },
                        )
                    } else {
                        Ok(FragmentView { ops: pre.ops + f.ops, ty: None, slots: f.slots })
                    },
                },
            },
        }
    }
}

/// A literal list of variant records.
pub open spec fn variant_list<L: RecordLowering>(
    items: Result<FragmentView, ErrorView>,
    n: nat,
    range: TokenRange,
) -> Result<FragmentView, ErrorView> {
    match items {
        Err(e) => Err(e),
        Ok(f) => if n > u32::MAX {
            Err(ErrorView::UnsupportedExpr { kind: "List<Enum>(too many elements)"@, range })
        } else {
            Ok(
                FragmentView {
                    ops: f.ops.push(sop(SimpleOp::BuildPointerList { len: n as u32 }, range)),
                    ty: Some(IrType::ListList),
                    slots: f.slots,
                },
            )
        },
    }
}

/// A value lowered against an expected type. Variants, lists of variants and
/// record literals are built in the expected shape; everything else is lowered
/// as it is.
pub open spec fn typed_value<L: RecordLowering>(
    env: RecordEnv<'_, L>,
    expected: TypeRepr,
    value: Node,
    scope: Scope<'_>,
    at: SlotsView,
) -> Result<FragmentView, ErrorView>
    decreases value, 1nat,
{
    match *value.expr {
        Expr::Ternary { .. } => env.low.typed_ternary(expected, value, scope, at),
        Expr::FnCall { path, args } => if is_variant_list(expected) {
            match env.low.variant_list_call(*expected->element, value, scope, at) {
                Err(e) => Err(e),
                Ok(Some(f)) => Ok(f),
                Ok(None) => env.low.lowered(value, scope, at),
            }
        } else if is_variant_type(expected) {
            match variant_named(expected, path@, true) {
                Some(name) => called_variant(
                    env,
                    expected,
                    name,
                    args@,
                    value.range,
                    scope,
                    at,
                ),
                None => env.low.lowered(value, scope, at),
            }
        } else {
            plain_value(env, expected, value, scope, at)
        },
        Expr::Comprehension { element, id, iterable, condition } => if is_variant_list(expected) {
            variant_comprehension(
                *env.low,
                *env.table,
                *expected->element,
                element,
                id@,
                iterable,
                condition,
                value.range,
                scope,
                at,
            )
        } else {
            plain_value(env, expected, value, scope, at)
        },
        Expr::List(items) => if is_variant_list(expected) {
            variant_list::<L>(
                variant_items(env, *expected->element, items@, scope, at),
                items@.len(),
                value.range,
            )
        } else {
            plain_value(env, expected, value, scope, at)
        },
        Expr::VariantCtor { enum_path, variant, body } => if is_variant_type(expected) {
            constructed_variant(
                env,
                expected,
                texts(enum_path@),
                variant@,
                body,
                value.range,
                scope,
                at,
            )
        } else {
            plain_value(env, expected, value, scope, at)
        },
        Expr::Variable(path) => if is_variant_type(expected) {
            match variant_named(expected, path@, false) {
                Some(name) => bare_variant(expected, name, env.in_scratch, value.range, at),
                None => env.low.lowered(value, scope, at),
            }
        } else {
            plain_value(env, expected, value, scope, at)
        },
        _ => plain_value(env, expected, value, scope, at),
    }
}

/// A value whose expected type is not a variant: a record pointer, or the value
/// as it is.
pub open spec fn plain_value<L: RecordLowering>(
    env: RecordEnv<'_, L>,
    expected: TypeRepr,
    value: Node,
    scope: Scope<'_>,
    at: SlotsView,
) -> Result<FragmentView, ErrorView> {
    match expected {
        TypeRepr::Schema { schema } => schema_value(env, *schema, value, value.range, scope, at),
        _ => env.low.lowered(value, scope, at),
    }
}

fn lower_plain_value<L: RecordLowering>(
    env: &RecordEnv<'_, L>,
    expected: &TypeRepr,
    value: &Node,
    scope: &Scope<'_>,
    at: &Slots,
) -> (r: Result<Fragment, LoweringError>)
    ensures
        outcome(r) == plain_value(*env, *expected, *value, *scope, at@),
{
    match expected {
        TypeRepr::Schema { schema } => lower_schema_value_as_absolute_pointer(
            env,
            schema,
            value,
            value.range,
            scope,
            at,
        ),
        _ => env.low.lower_node(value, scope, at),
    }
}

/// Lowers a variant written as a bare name.
pub fn lower_bare_variant(
    expected: &TypeRepr,
    variant: &str,
    in_scratch: bool,
    range: TokenRange,
    at: &Slots,
) -> (r: Result<Fragment, LoweringError>)
    ensures
        outcome(r) == bare_variant(*expected, variant@, in_scratch, range, at@),
{
    match standard_variant_shape(expected, None, variant, range) {
        Err(e) => Err(e),
        Ok(shape) => match shape.payload {
            Some(_) => Err(
                LoweringError::UnsupportedExpr {
                    kind: variant_message(variant, " requires a payload"),
                    range,
                },
            ),
            None => emit_variant_record_from_lowered_payload(
                expected,
                variant,
                shape.tag,
                None,
                in_scratch,
                range,
                at,
            ),
        },
    }
}

/// Emits a variant record around a payload node.
fn emit_payload_variant<L: RecordLowering>(
    env: &RecordEnv<'_, L>,
    expected: &TypeRepr,
    variant: &str,
    tag: u8,
    payload_ty: &TypeRepr,
    payload: &Node,
    range: TokenRange,
    scope: &Scope<'_>,
    at: &Slots,
) -> (r: Result<Fragment, LoweringError>)
    requires
        env.table.wf(),
    ensures
        outcome(r) == record_around(
            *expected,
            variant@,
            tag,
            *payload_ty,
            typed_value(*env, *payload_ty, *payload, *scope, at@),
            env.in_scratch,
            range,
            at@,
        ),
    decreases payload, 2nat,
{
    match lower_value_as_type(env, payload_ty, payload, scope, at) {
        Err(e) => Err(e),
        Ok(f) => emit_variant_record_from_lowered_payload(
            expected,
            variant,
            tag,
            Some((payload_ty, f)),
            env.in_scratch,
            range,
            at,
        ),
    }
}

fn emit_tuple_variant<L: RecordLowering>(
    env: &RecordEnv<'_, L>,
    expected: &TypeRepr,
    variant: &str,
    tag: u8,
    ty: &TypeRepr,
    args: &Vec<CallArg>,
    range: TokenRange,
    scope: &Scope<'_>,
    at: &Slots,
) -> (r: Result<Fragment, LoweringError>)
    ensures
        outcome(r) == tuple_variant(
            *env,
            *expected,
            variant@,
            tag,
            *ty,
            args@,
            range,
            *scope,
            at@,
        ),
{
    let schema = match ty {
        TypeRepr::Schema { schema } => schema,
        _ => {
            return Err(
                LoweringError::UnsupportedExpr {
                    kind: variant_message(variant, " payload is not a record"),
                    range,
                },
            );
        },
    };
    if !fields_are_tuple_payload(&schema.fields) {
        let rest: String = variant_message(variant, " must be constructed with `{ ... }`");
        return Err(
            LoweringError::UnsupportedExpr { kind: join2("struct ", rest.as_str()), range },
        );
    }
    if args.len() != schema.fields.len() || !positional_only(args) {
        let want: String = decimal(schema.fields.len());
        let kind: String = join3(variant, "(...) expects ", want.as_str()).concat(
            " positional payload values",
        );
        return Err(LoweringError::UnsupportedExpr { kind, range });
    }
    let layout = match env.low.offsets_for(schema) {
        Err(e) => {
            return Err(e);
        },
        Ok(l) => l,
    };
    let (record, next) = at.alloc_record_local();
    let body = match emit_payload_fields(env, schema, &layout, args, record, scope, &next) {
        Err(e) => {
            return Err(e);
        },
        Ok(f) => f,
    };
    let mut out: Vec<TaggedOp> = Vec::new();
    emit_simple(
        &mut out,
        alloc_record_op(env.in_scratch, record, layout.root_size, layout.root_align),
        range,
    );
    assert(ops_view(out@) =~= seq![
        sop(
            alloc_op(env.in_scratch, at.records, layout.root_size, layout.root_align),
            range,
        ),
    ]);
    let slots: Slots = body.slots;
    emit_all(&mut out, body.ops);
    push_record_base_for_pointer(env.in_scratch, record, range, &mut out);
    emit_variant_record_from_lowered_payload(
        expected,
        variant,
        tag,
        Some((ty, Fragment { ops: out, ty: Some(IrType::I32), slots })),
        env.in_scratch,
        range,
        at,
    )
}

/// Lowers a variant written as a call.
pub fn lower_variant_call_as_type<L: RecordLowering>(
    env: &RecordEnv<'_, L>,
    expected: &TypeRepr,
    variant: &str,
    args: &Vec<CallArg>,
    range: TokenRange,
    scope: &Scope<'_>,
    at: &Slots,
) -> (r: Result<Fragment, LoweringError>)
    requires
        env.table.wf(),
    ensures
        outcome(r) == called_variant(*env, *expected, variant@, args@, range, *scope, at@),
    decreases args, 3nat,
{
    let shape = match standard_variant_shape(expected, None, variant, range) {
        Err(e) => {
            return Err(e);
        },
        Ok(s) => s,
    };
    match shape.payload {
        None => {
            if args.len() != 0 {
                return Err(
                    LoweringError::UnsupportedExpr {
                        kind: join2(variant, "(...) does not take payload"),
                        range,
                    },
                );
            }
            emit_variant_record_from_lowered_payload(
                expected,
                variant,
                shape.tag,
                None,
                env.in_scratch,
                range,
                at,
            )
        },
        Some(payload) => {
            if payload.key.is_some() {
                if args.len() != 1 || args[0].name.is_some() {
                    return Err(
                        LoweringError::UnsupportedExpr {
                            kind: join2(variant, "(...) expects exactly one positional payload"),
                            range,
                        },
                    );
                }
                assert(decreases_to!(*args => args@));
                assert(decreases_to!(args@ => args@[0]));
                assert(decreases_to!(args@[0] => args@[0].value));
                return emit_payload_variant(
                    env,
                    expected,
                    variant,
                    shape.tag,
                    payload.ty,
                    &args[0].value,
                    range,
                    scope,
                    at,
                );
            }
            emit_tuple_variant(
                env,
                expected,
                variant,
                shape.tag,
                payload.ty,
                args,
                range,
                scope,
                at,
            )
        },
    }
}

/// Lowers a variant written with a braced body.
pub fn lower_variant_ctor_as_type<L: RecordLowering>(
    env: &RecordEnv<'_, L>,
    expected: &TypeRepr,
    enum_path: &Vec<String>,
    variant: &String,
    body: &Node,
    range: TokenRange,
    scope: &Scope<'_>,
    at: &Slots,
) -> (r: Result<Fragment, LoweringError>)
    requires
        env.table.wf(),
    ensures
        outcome(r) == constructed_variant(
            *env,
            *expected,
            texts(enum_path@),
            variant@,
            *body,
            range,
            *scope,
            at@,
        ),
    decreases body, 3nat,
{
    let shape = match standard_variant_shape(expected, Some(enum_path), variant.as_str(), range) {
        Err(e) => {
            return Err(e);
        },
        Ok(s) => s,
    };
    let pairs = match variant_body_pairs(body, range) {
        Err(e) => {
            return Err(e);
        },
        Ok(p) => p,
    };
    match shape.payload {
        Some(payload) => {
            proof {
                lemma_ctor_payload_smaller(*body, payload, range);
            }
            let node: &Node = match payload.key {
                Some(key) => match variant_payload_node(pairs, key.name(), range) {
                    Err(e) => {
                        return Err(e);
                    },
                    Ok(n) => n,
                },
                None => body,
            };
            assert(ctor_payload(*body, payload, range) == Ok::<Node, ErrorView>(*node));
            emit_payload_variant(
                env,
                expected,
                variant.as_str(),
                shape.tag,
                payload.ty,
                node,
                range,
                scope,
                at,
            )
        },
        None => {
            if pairs.len() != 0 {
                return Err(
                    LoweringError::UnsupportedExpr {
                        kind: variant_message(variant.as_str(), " does not take payload fields"),
                        range,
                    },
                );
            }
            emit_variant_record_from_lowered_payload(
                expected,
                variant.as_str(),
                shape.tag,
                None,
                env.in_scratch,
                range,
                at,
            )
        },
    }
}

proof fn lemma_variant_items_prefix<L: RecordLowering>(
    env: RecordEnv<'_, L>,
    element: TypeRepr,
    items: Seq<Node>,
    scope: Scope<'_>,
    at: SlotsView,
    k: int,
)
    requires
        0 <= k <= items.len(),
        variant_items(env, element, items.take(k), scope, at) is Err,
    ensures
        variant_items(env, element, items, scope, at) == variant_items(
            env,
            element,
            items.take(k),
            scope,
            at,
        ),
    decreases items.len(),
{
    if k == items.len() {
        assert(items.take(k) =~= items);
    } else {
        assert(items.drop_last().take(k) =~= items.take(k));
        lemma_variant_items_prefix(env, element, items.drop_last(), scope, at, k);
    }
}

/// Lowers a literal list of variant records.
pub fn lower_variant_record_list_literal<L: RecordLowering>(
    env: &RecordEnv<'_, L>,
    element: &TypeRepr,
    items: &Vec<Node>,
    range: TokenRange,
    scope: &Scope<'_>,
    at: &Slots,
) -> (r: Result<Fragment, LoweringError>)
    requires
        env.table.wf(),
    ensures
        outcome(r) == variant_list::<L>(
            variant_items(*env, *element, items@, *scope, at@),
            items@.len(),
            range,
        ),
    decreases items, 3nat,
{
    let mut out: Vec<TaggedOp> = Vec::new();
    let mut slots: Slots = at.copy();
    let mut i: usize = 0;
    assert(items@.take(0) =~= Seq::empty());
    assert(ops_view(out@) =~= Seq::empty());
    while i < items.len()
        invariant
            i <= items.len(),
            env.table.wf(),
            variant_items(*env, *element, items@.take(i as int), *scope, at@) == Ok::<
                FragmentView,
                ErrorView,
            >(FragmentView { ops: ops_view(out@), ty: None, slots: slots@ }),
        decreases items.len() - i,
    {
        assert(items@.take(i + 1).drop_last() =~= items@.take(i as int));
        assert(items@.take(i + 1).last() == items@[i as int]);
        assert(decreases_to!(*items => items@));
        assert(decreases_to!(items@ => items@[i as int]));
        let lowered = lower_value_as_type(env, element, &items[i], scope, &slots);
        let f = match lowered {
            Err(e) => {
                proof {
                    lemma_variant_items_prefix(*env, *element, items@, *scope, at@, i + 1);
                }
                return Err(e);
            },
            Ok(f) => f,
        };
        let top = match f.ty {
            None => {
                proof {
                    lemma_variant_items_prefix(*env, *element, items@, *scope, at@, i + 1);
                }
                return Err(
                    unsupported("List<Enum>(element produced no value)", items[i].range),
                );
            },
            Some(t) => t,
        };
        if top.wasm_slot() != IrType::I32.wasm_slot() {
            proof {
                lemma_variant_items_prefix(*env, *element, items@, *scope, at@, i + 1);
            }
            return Err(
                LoweringError::UnsupportedExpr {
                    kind: join3(
                        "List<Enum>(element produced ",
                        top.name(),
                        ", expected variant pointer)",
                    ),
                    range: items[i].range,
                },
            );
        }
        slots = f.slots;
        emit_all(&mut out, f.ops);
        i += 1;
    }
    assert(items@.take(items@.len() as int) =~= items@);
    if items.len() as u64 > 0xffff_ffffu64 {
        return Err(unsupported("List<Enum>(too many elements)", range));
    }
    emit_simple(&mut out, SimpleOp::BuildPointerList { len: items.len() as u32 }, range);
    Ok(Fragment { ops: out, ty: Some(IrType::ListList), slots })
}

/// Lowers a value against an expected type.
pub fn lower_value_as_type<L: RecordLowering>(
    env: &RecordEnv<'_, L>,
    expected: &TypeRepr,
    value: &Node,
    scope: &Scope<'_>,
    at: &Slots,
) -> (r: Result<Fragment, LoweringError>)
    requires
        env.table.wf(),
    ensures
        outcome(r) == typed_value(*env, *expected, *value, *scope, at@),
    decreases value, 1nat,
{
    let list_element: Option<&TypeRepr> = match expected {
        TypeRepr::List { element } => if variant_record_list_element(element) {
            Some(&**element)
        } else {
            None
        },
        _ => None,
    };
    let is_variant: bool = variant_record_list_element(expected);
    match &*value.expr {
        Expr::Ternary { .. } => env.low.lower_typed_ternary(expected, value, scope, at),
        Expr::FnCall { path, args } => {
            match list_element {
                Some(element) => {
                    return match env.low.lower_variant_list_call(element, value, scope, at) {
                        Err(e) => Err(e),
                        Ok(Some(f)) => Ok(f),
                        Ok(None) => env.low.lower_node(value, scope, at),
                    };
                },
                None => {},
            }
            if is_variant {
                match variant_name_from_path(expected, path, true) {
                    Some(name) => lower_variant_call_as_type(
                        env,
                        expected,
                        name.as_str(),
                        args,
                        value.range,
                        scope,
                        at,
                    ),
                    None => env.low.lower_node(value, scope, at),
                }
            } else {
                lower_plain_value(env, expected, value, scope, at)
            }
        },
        Expr::Comprehension { element, id, iterable, condition } => match list_element {
            Some(expected_element) => lower_comprehension_as_type(
                expected_element,
                element,
                id,
                iterable,
                condition.as_ref(),
                value.range,
                scope,
                at,
                env.low,
                env.table,
            ),
            None => lower_plain_value(env, expected, value, scope, at),
        },
        Expr::List(items) => match list_element {
            Some(element) => lower_variant_record_list_literal(
                env,
                element,
                items,
                value.range,
                scope,
                at,
            ),
            None => lower_plain_value(env, expected, value, scope, at),
        },
        Expr::VariantCtor { enum_path, variant, body } => if is_variant {
            lower_variant_ctor_as_type(
                env,
                expected,
                enum_path,
                variant,
                body,
                value.range,
                scope,
                at,
            )
        } else {
            lower_plain_value(env, expected, value, scope, at)
        },
        Expr::Variable(path) => if is_variant {
            match variant_name_from_path(expected, path, false) {
                Some(name) => lower_bare_variant(
                    expected,
                    name.as_str(),
                    env.in_scratch,
                    value.range,
                    at,
                ),
                None => env.low.lower_node(value, scope, at),
            }
        } else {
            lower_plain_value(env, expected, value, scope, at)
        },
        _ => lower_plain_value(env, expected, value, scope, at),
    }
}

/// A variant of known tag with or without payload; the presence of a payload
/// node must fit the variant.
pub open spec fn standard_record<L: RecordLowering>(
    env: RecordEnv<'_, L>,
    expected: TypeRepr,
    variant: Seq<char>,
    tag: u8,
    payload_ty: Option<TypeRepr>,
    payload: Option<Node>,
    range: TokenRange,
    scope: Scope<'_>,
    at: SlotsView,
) -> Result<FragmentView, ErrorView> {
    match (payload_ty, payload) {
        (Some(ty), Some(node)) => record_around(
            expected,
            variant,
            tag,
            ty,
            typed_value(env, ty, node, scope, at),
            env.in_scratch,
            range,
            at,
        ),
        (Some(_), None) => Err(
            ErrorView::UnsupportedExpr {
                kind: about_variant(variant, " requires a payload"@),
                range,
            },
        ),
        (None, Some(_)) => Err(
            ErrorView::UnsupportedExpr {
                kind: about_variant(variant, " does not take a payload"@),
                range,
            },
        ),
        (None, None) => variant_record(expected, variant, tag, None, env.in_scratch, range, at),
    }
}

/// Executable form of [`standard_record`].
pub fn emit_standard_variant_record<L: RecordLowering>(
    env: &RecordEnv<'_, L>,
    expected: &TypeRepr,
    variant: &str,
    tag: u8,
    payload_ty: Option<&TypeRepr>,
    payload_node: Option<&Node>,
    range: TokenRange,
    scope: &Scope<'_>,
    at: &Slots,
) -> (r: Result<Fragment, LoweringError>)
    requires
        env.table.wf(),
    ensures
        outcome(r) == standard_record(
            *env,
            *expected,
            variant@,
            tag,
            (match payload_ty {
                Some(t) => Some(*t),
                None => None,
            }),
            (match payload_node {
                Some(n) => Some(*n),
                None => None,
            }),
            range,
            *scope,
            at@,
        ),
{
    match (payload_ty, payload_node) {
        (Some(ty), Some(node)) => emit_payload_variant(
            env,
            expected,
            variant,
            tag,
            ty,
            node,
            range,
            scope,
            at,
        ),
        (Some(_), None) => Err(
            LoweringError::UnsupportedExpr {
                kind: variant_message(variant, " requires a payload"),
                range,
            },
        ),
        (None, Some(_)) => Err(
            LoweringError::UnsupportedExpr {
                kind: variant_message(variant, " does not take a payload"),
                range,
            },
        ),
        (None, None) => emit_variant_record_from_lowered_payload(
            expected,
            variant,
            tag,
            None,
            env.in_scratch,
            range,
            at,
        ),
    }
}

/// A named variant with or without payload node.
pub open spec fn named_record<L: RecordLowering>(
    env: RecordEnv<'_, L>,
    expected: TypeRepr,
    variant: Seq<char>,
    payload: Option<Node>,
    range: TokenRange,
    scope: Scope<'_>,
    at: SlotsView,
) -> Result<FragmentView, ErrorView> {
    match variant_shape(&expected, None, variant, range) {
        Err(e) => Err(e),
        Ok(shape) => standard_record(
            env,
            expected,
            variant,
            shape.tag,
            (match shape.payload {
                Some(p) => Some(*p.ty),
                None => None,
            }),
            payload,
            range,
            scope,
            at,
        ),
    }
}

/// Executable form of [`named_record`].
pub fn lower_standard_variant_record<L: RecordLowering>(
    env: &RecordEnv<'_, L>,
    expected: &TypeRepr,
    variant: &str,
    payload_node: Option<&Node>,
    range: TokenRange,
    scope: &Scope<'_>,
    at: &Slots,
) -> (r: Result<Fragment, LoweringError>)
    requires
        env.table.wf(),
    ensures
        outcome(r) == named_record(
            *env,
            *expected,
            variant@,
            (match payload_node {
                Some(n) => Some(*n),
                None => None,
            }),
            range,
            *scope,
            at@,
        ),
{
    match standard_variant_shape(expected, None, variant, range) {
        Err(e) => Err(e),
        Ok(shape) => {
            let payload_ty = match shape.payload {
                Some(p) => Some(p.ty),
                None => None,
            };
            emit_standard_variant_record(
                env,
                expected,
                variant,
                shape.tag,
                payload_ty,
                payload_node,
                range,
                scope,
                at,
            )
        },
    }
}

/// A bare variant is the named variant without payload node.
pub proof fn law_bare_variant_is_named<L: RecordLowering>(
    env: RecordEnv<'_, L>,
    expected: TypeRepr,
    variant: Seq<char>,
    range: TokenRange,
    scope: Scope<'_>,
    at: SlotsView,
)
    ensures
        bare_variant(expected, variant, env.in_scratch, range, at) == named_record(
            env,
            expected,
            variant,
            None,
            range,
            scope,
            at,
        ),
{
}

/// A successfully built variant record is a pointer.
pub proof fn law_variant_record_is_pointer(
    expected: TypeRepr,
    variant: Seq<char>,
    tag: u8,
    payload: Option<(TypeRepr, FragmentView)>,
    in_scratch: bool,
    range: TokenRange,
    at: SlotsView,
)
    ensures
        variant_record(expected, variant, tag, payload, in_scratch, range, at) matches Ok(f)
            ==> f.ty == Some(IrType::I32),
{
}

impl RecordLowering for LeafLowering {
    open spec fn layout(&self, schema: Schema) -> Result<LayoutView, ErrorView> {
        Err(unsupported_type(TypeRepr::Schema { schema: Box::new(schema) }))
    }

    fn offsets_for(&self, schema: &Schema) -> (r: Result<OffsetTable, LoweringError>) {
        let ghost ty = TypeRepr::Schema { schema: Box::new(*schema) };
        assert(schema_view(*schema).name == schema.name@);
        Err(
            LoweringError::UnsupportedTypeInMain {
                ty: join2("Schema ", schema.name.as_str()),
                range: TokenRange { start: 0, end: 0 },
            },
        )
    }

    open spec fn declared(&self, name: Seq<char>) -> bool {
        false
    }

    fn is_declared(&self, name: &String) -> (r: bool) {
        false
    }

    open spec fn record_body(
        &self,
        kind: RecordBody,
        schema: Schema,
        value: Node,
        record: u32,
        range: TokenRange,
        scope: Scope<'_>,
        at: SlotsView,
    ) -> Result<FragmentView, ErrorView> {
        Err(ErrorView::UnsupportedExpr { kind: "leaf expression"@, range: value.range })
    }

    fn lower_record_body(
        &self,
        kind: RecordBody,
        schema: &Schema,
        value: &Node,
        record: u32,
        range: TokenRange,
        scope: &Scope<'_>,
        at: &Slots,
    ) -> (r: Result<Fragment, LoweringError>) {
        Err(unsupported("leaf expression", value.range))
    }

    open spec fn field_value(
        &self,
        schema: Schema,
        index: int,
        value: Node,
        scope: Scope<'_>,
        at: SlotsView,
    ) -> Result<FragmentView, ErrorView> {
        self.lowered(value, scope, at)
    }

    fn lower_field_value(
        &self,
        schema: &Schema,
        index: usize,
        value: &Node,
        scope: &Scope<'_>,
        at: &Slots,
    ) -> (r: Result<Fragment, LoweringError>) {
        self.lower_node(value, scope, at)
    }

    open spec fn typed_ternary(
        &self,
        expected: TypeRepr,
        value: Node,
        scope: Scope<'_>,
        at: SlotsView,
    ) -> Result<FragmentView, ErrorView> {
        Err(ErrorView::UnsupportedExpr { kind: "leaf expression"@, range: value.range })
    }

    fn lower_typed_ternary(
        &self,
        expected: &TypeRepr,
        value: &Node,
        scope: &Scope<'_>,
        at: &Slots,
    ) -> (r: Result<Fragment, LoweringError>) {
        Err(unsupported("leaf expression", value.range))
    }

    open spec fn variant_list_call(
        &self,
        element: TypeRepr,
        value: Node,
        scope: Scope<'_>,
        at: SlotsView,
    ) -> Result<Option<FragmentView>, ErrorView> {
        Ok(None)
    }

    fn lower_variant_list_call(
        &self,
        element: &TypeRepr,
        value: &Node,
        scope: &Scope<'_>,
        at: &Slots,
    ) -> (r: Result<Option<Fragment>, LoweringError>) {
        Ok(None)
    }
}

} // verus!

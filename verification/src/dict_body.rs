//! The body of an entry point that returns a dictionary literal: hidden fields
//! become let bindings, the others are stored in the returned record.

use vstd::prelude::*;

use crate::ast::{expr_kind, expr_kind_name, is_key, key_is, Node, TokenKey, TokenRange};
use crate::dict_plan::{order_in_range, AnonDictField, AnonDictPlan};
use crate::error::{ErrorView, LoweringError};
use crate::field_types::{bad_field, entries_view, field_error};
use crate::fragment::{
    emit_get, emit_set, let_get, let_set, outcome, plain_binding, slot, slot_at, ClosureSig,
    Fragment, FragmentView, LetBinding, PoolSlots, Scope, Slots, SlotsView,
};
use crate::ir::{
    copy_entries, copy_strings, emit, emit_all, emit_simple, op_view, ops_view, sop, texts,
    IrType, Op, OpView, SimpleOp, TaggedOp, TaggedOpView,
};
use crate::records::{lower_value_as_type, typed_value, OffsetTable, RecordEnv, RecordLowering};
use crate::reference::{appended, find_field_index};
use crate::shape::{
    const_string_list, field_index, ir_type_of, no_range, pointer_array, pointer_array_list_ir_type,
    pointer_array_list_source_is_const_pool, pointer_indirect, pointer_indirect_ir_type,
    type_repr_to_ir_type, unsupported_type,
};
use crate::text::join3;
use crate::types::{Schema, TypeRepr};
use crate::variant::{is_variant_list, variant_list_literal_for_type};

verus! {

/// The value written for a field; of several the last counts.
pub open spec fn source_value(pairs: Seq<(TokenKey, Node)>, name: Seq<char>) -> Option<Node>
    decreases pairs.len(),
{
    if pairs.len() == 0 {
        None
    } else if key_is(pairs.last().0, name) {
        Some(pairs.last().1)
    } else {
        source_value(pairs.drop_last(), name)
    }
}

fn find_source_value<'a>(pairs: &'a Vec<(TokenKey, Node)>, name: &String) -> (r: Option<&'a Node>)
    ensures
        match r {
            Some(n) => source_value(pairs@, name@) == Some(*n),
            None => source_value(pairs@, name@) is None,
        },
{
    let mut i: usize = pairs.len();
    assert(pairs@.take(pairs@.len() as int) =~= pairs@);
    while i > 0
        invariant
            i <= pairs@.len(),
            source_value(pairs@, name@) == source_value(pairs@.take(i as int), name@),
        decreases i,
    {
        i -= 1;
        assert(pairs@.take(i + 1).drop_last() =~= pairs@.take(i as int));
        assert(pairs@.take(i + 1).last() == pairs@[i as int]);
        if is_key(&pairs[i].0, name.as_str()) {
            return Some(&pairs[i].1);
        }
    }
    None
}

/// The error for a field of the body; `head` and `tail` surround its name.
pub open spec fn body_error(
    head: Seq<char>,
    name: Seq<char>,
    tail: Seq<char>,
    range: TokenRange,
) -> ErrorView {
    ErrorView::UnsupportedExpr { kind: head + name + tail, range }
}

fn body_failure(head: &str, name: &String, tail: &str, range: TokenRange) -> (e: LoweringError)
    ensures
        e@ == body_error(head@, name@, tail@, range),
{
    LoweringError::UnsupportedExpr { kind: join3(head, name.as_str(), tail), range }
}

/// The instructions of one field, the let binding that later fields see, and
/// the counters behind them.
pub ghost struct FieldCodeView<'a> {
    pub ops: Seq<TaggedOpView>,
    pub binding: Option<LetBinding<'a>>,
    pub slots: SlotsView,
}

struct FieldCode<'a> {
    ops: Vec<TaggedOp>,
    binding: Option<LetBinding<'a>>,
    slots: Slots,
}

spec fn code_outcome<'a>(r: Result<FieldCode<'a>, LoweringError>) -> Result<
    FieldCodeView<'a>,
    ErrorView,
> {
    match r {
        Ok(c) => Ok(
            FieldCodeView { ops: ops_view(c.ops@), binding: c.binding, slots: c.slots@ },
        ),
        Err(e) => Err(e@),
    }
}

// ---------------------------------------------------------------------------
// Hidden fields.
// ---------------------------------------------------------------------------

/// The binding of a closure.
pub open spec fn closure_binding<'a>(name: String, idx: u32, sig: &'a ClosureSig) -> LetBinding<
    'a,
> {
    LetBinding {
        name,
        idx,
        ty: IrType::Closure,
        schema_brand: None,
        type_repr: None,
        closure: Some(sig),
        constant: None,
    }
}

/// A hidden closure. Its own name is bound inside its body.
pub open spec fn closure_code<'a, L: RecordLowering>(
    low: L,
    name: String,
    sig: &'a ClosureSig,
    pairs: Seq<(TokenKey, Node)>,
    scope: Scope<'_>,
    at: SlotsView,
) -> Result<FieldCodeView<'a>, ErrorView> {
    match source_value(pairs, name@) {
        None => Err(
            body_error(
                "AnonDictReturn(missing source value for closure field `"@,
                name@,
                "`)"@,
                no_range(),
            ),
        ),
        Some(value) => {
            let b = closure_binding(name, at.lets, sig);
            match low.closure_lowered(
                value,
                sig.params@,
                sig.ret,
                Scope::Bind(b, &scope),
                at.after(1),
            ) {
                Err(e) => Err(e),
                Ok(f) => if f.ty is None {
                    Err(
                        body_error(
                            "AnonDictReturn(closure field `"@,
                            name@,
                            "` produced no value)"@,
                            value.range,
                        ),
                    )
                } else {
                    Ok(
                        FieldCodeView {
                            ops: f.ops.push(let_set(at.lets, IrType::Closure, value.range)),
                            binding: Some(b),
                            slots: f.slots,
                        },
                    )
                },
            }
        },
    }
}

fn lower_closure_field<'a, L: RecordLowering>(
    name: &String,
    sig: &'a ClosureSig,
    pairs: &Vec<(TokenKey, Node)>,
    scope: &Scope<'_>,
    at: &Slots,
    low: &L,
) -> (r: Result<FieldCode<'a>, LoweringError>)
    ensures
        code_outcome(r) == closure_code(*low, *name, sig, pairs@, *scope, at@),
{
    let value: &Node = match find_source_value(pairs, name) {
        None => {
            return Err(
                body_failure(
                    "AnonDictReturn(missing source value for closure field `",
                    name,
                    "`)",
                    TokenRange { start: 0, end: 0 },
                ),
            );
        },
        Some(v) => v,
    };
    let own = LetBinding {
        name: name.clone(),
        idx: at.lets,
        ty: IrType::Closure,
        schema_brand: None,
        type_repr: None,
        closure: Some(sig),
        constant: None,
    };
    let inner = Scope::Bind(own, scope);
    let f: Fragment = match low.lower_closure(value, &sig.params, sig.ret, &inner, &at.reserve(1)) {
        Err(e) => {
            return Err(e);
        },
        Ok(f) => f,
    };
    if f.ty.is_none() {
        return Err(
            body_failure("AnonDictReturn(closure field `", name, "` produced no value)", value.range),
        );
    }
    let Fragment { ops, slots, .. } = f;
    let mut out: Vec<TaggedOp> = ops;
    emit_set(&mut out, at.lets, IrType::Closure, value.range);
    let binding = LetBinding {
        name: name.clone(),
        idx: at.lets,
        ty: IrType::Closure,
        schema_brand: None,
        type_repr: None,
        closure: Some(sig),
        constant: None,
    };
    Ok(FieldCode { ops: out, binding: Some(binding), slots })
}

/// A constant, put into a fresh let slot.
pub open spec fn constant_code<'a>(
    name: String,
    op: OpView,
    ty: IrType,
    at: SlotsView,
) -> FieldCodeView<
    'a,
> {
    FieldCodeView {
        ops: seq![
            TaggedOpView { op, range: no_range() },
            let_set(at.lets, ty, no_range()),
        ],
        binding: Some(plain_binding(name, at.lets, ty)),
        slots: at.after(1),
    }
}

fn lower_constant_field<'a>(name: &String, op: Op, ty: IrType, at: &Slots) -> (r: FieldCode<'a>)
    ensures
        code_outcome(Ok(r)) == Ok::<FieldCodeView<'a>, ErrorView>(
            constant_code(*name, op_view(op), ty, at@),
        ),
{
    let none: TokenRange = TokenRange { start: 0, end: 0 };
    let mut out: Vec<TaggedOp> = Vec::new();
    emit(&mut out, op, none);
    emit_set(&mut out, at.lets, ty, none);
    assert(ops_view(out@) =~= constant_code(*name, op_view(op), ty, at@).ops);
    let binding = LetBinding {
        name: name.clone(),
        idx: at.lets,
        ty,
        schema_brand: None,
        type_repr: None,
        closure: None,
        constant: None,
    };
    FieldCode { ops: out, binding: Some(binding), slots: at.reserve(1) }
}

impl PoolSlots {
    /// The counters after one dictionary.
    pub open spec fn after_dict(self) -> PoolSlots {
        PoolSlots { dicts: slot_at(self.dicts, 1), ..self }
    }

    /// The counters after one list of strings.
    pub open spec fn after_string_list(self) -> PoolSlots {
        PoolSlots { string_lists: slot_at(self.string_lists, 1), ..self }
    }

    /// Takes a number for a dictionary.
    pub fn alloc_dict_idx(self) -> (r: (u32, PoolSlots))
        ensures
            r == (self.dicts, self.after_dict()),
    {
        let mut next = self;
        next.dicts = slot(self.dicts, 1);
        (self.dicts, next)
    }

    /// Takes a number for a list of strings.
    pub fn alloc_list_string_idx(self) -> (r: (u32, PoolSlots))
        ensures
            r == (self.string_lists, self.after_string_list()),
    {
        let mut next = self;
        next.string_lists = slot(self.string_lists, 1);
        (self.string_lists, next)
    }
}

// ---------------------------------------------------------------------------
// Fields that the host sees.
// ---------------------------------------------------------------------------

/// The instruction type that a field is stored as.
pub open spec fn stored_as(ty: IrType, variant_list: bool) -> IrType {
    if !variant_list && pointer_indirect(ty) {
        IrType::I32
    } else {
        ty
    }
}

/// The store of a field value that is in its let slot.
pub open spec fn stored(
    idx: u32,
    ty: IrType,
    variant_list: bool,
    record: u32,
    offset: u32,
    range: TokenRange,
) -> Seq<TaggedOpView> {
    let kept = seq![let_set(idx, ty, range), let_get(idx, ty, range)];
    let copied = if !variant_list && pointer_indirect(ty) {
        kept.push(sop(SimpleOp::EmitTailRecordFromAbsoluteAddr { ty }, range))
    } else {
        kept
    };
    copied.push(
        sop(
            SimpleOp::StoreFieldAtRecord {
                record_local_idx: record,
                offset,
                ty: stored_as(ty, variant_list),
            },
            range,
        ),
    )
}

fn emit_stored(
    out: &mut Vec<TaggedOp>,
    idx: u32,
    ty: IrType,
    variant_list: bool,
    record: u32,
    offset: u32,
    range: TokenRange,
)
    ensures
        ops_view(final(out)@) == ops_view(old(out)@) + stored(
            idx,
            ty,
            variant_list,
            record,
            offset,
            range,
        ),
{
    emit_set(out, idx, ty, range);
    emit_get(out, idx, ty, range);
    let mut store_ty: IrType = ty;
    if !variant_list && pointer_indirect_ir_type(ty) {
        emit_simple(out, SimpleOp::EmitTailRecordFromAbsoluteAddr { ty }, range);
        store_ty = IrType::I32;
    }
    emit_simple(
        out,
        SimpleOp::StoreFieldAtRecord { record_local_idx: record, offset, ty: store_ty },
        range,
    );
    assert(ops_view(out@) =~= ops_view(old(out)@) + stored(
        idx,
        ty,
        variant_list,
        record,
        offset,
        range,
    ));
}

/// The value of a visible field, or why it has none.
pub open spec fn visible_value<L: RecordLowering>(
    env: RecordEnv<'_, L>,
    name: Seq<char>,
    ty: TypeRepr,
    irt: IrType,
    value: Node,
    scope: Scope<'_>,
    at: SlotsView,
) -> Result<FragmentView, ErrorView> {
    let variant_list = is_variant_list(ty) && *value.expr is List;
    if pointer_array(irt) && !const_string_list(*value.expr) && !variant_list {
        Err(
            bad_field(
                name,
                irt.tag() + " sourced from `"@ + expr_kind(*value.expr)
                    + "` — pointer-array list fields are                              only marshalled from in-source list literals"@,
                value.range,
            ),
        )
    } else {
        let lowered = if variant_list {
            typed_value(env, ty, value, scope, at)
        } else {
            env.low.lowered(value, scope, at)
        };
        match lowered {
            Err(e) => Err(e),
            Ok(f) => match f.ty {
                None => Err(
                    body_error(
                        "AnonDictReturn(scalar field `"@,
                        name,
                        "` produced no value)"@,
                        value.range,
                    ),
                ),
                Some(top) => if top.slot_spec() != irt.slot_spec() {
                    Err(
                        bad_field(
                            name,
                            "expected "@ + irt.tag() + ", got "@ + top.tag(),
                            value.range,
                        ),
                    )
                } else {
                    Ok(f)
                },
            },
        }
    }
}

fn lower_visible_value<L: RecordLowering>(
    env: &RecordEnv<'_, L>,
    name: &String,
    ty: &TypeRepr,
    irt: IrType,
    value: &Node,
    scope: &Scope<'_>,
    at: &Slots,
) -> (r: Result<Fragment, LoweringError>)
    requires
        env.table.wf(),
    ensures
        outcome(r) == visible_value(*env, name@, *ty, irt, *value, *scope, at@),
{
    let variant_list: bool = variant_list_literal_for_type(ty, &*value.expr);
    if pointer_array_list_ir_type(irt) && !pointer_array_list_source_is_const_pool(&*value.expr)
        && !variant_list {
        return Err(
            field_error(
                name.as_str(),
                join3(irt.name(), " sourced from `", expr_kind_name(&*value.expr)).concat(
                    "` — pointer-array list fields are                              only marshalled from in-source list literals",
                ),
                value.range,
            ),
        );
    }
    let lowered = if variant_list {
        lower_value_as_type(env, ty, value, scope, at)
    } else {
        env.low.lower_node(value, scope, at)
    };
    match lowered {
        Err(e) => Err(e),
        Ok(f) => match f.ty {
            None => Err(
                body_failure(
                    "AnonDictReturn(scalar field `",
                    name,
                    "` produced no value)",
                    value.range,
                ),
            ),
            Some(top) => if top.wasm_slot() != irt.wasm_slot() {
                Err(
                    field_error(
                        name.as_str(),
                        join3("expected ", irt.name(), ", got ").concat(top.name()),
                        value.range,
                    ),
                )
            } else {
                Ok(f)
            },
        },
    }
}

/// A visible field: its value, kept in a let slot for later fields and stored
/// in the record.
pub open spec fn visible_code<'a, L: RecordLowering>(
    env: RecordEnv<'_, L>,
    name: String,
    ty: TypeRepr,
    schema: Schema,
    layout: OffsetTable,
    pairs: Seq<(TokenKey, Node)>,
    record: u32,
    scope: Scope<'_>,
    at: SlotsView,
) -> Result<FieldCodeView<'a>, ErrorView> {
    match source_value(pairs, name@) {
        None => Err(
            body_error(
                "AnonDictReturn(missing source value for scalar field `"@,
                name@,
                "`)"@,
                no_range(),
            ),
        ),
        Some(value) => match ir_type_of(ty) {
            None => Err(unsupported_type(ty)),
            Some(irt) => match visible_value(env, name@, ty, irt, value, scope, at) {
                Err(e) => Err(e),
                Ok(f) => match field_index(schema.fields@, name@, 0) {
                    None => Err(
                        body_error(
                            "AnonDictReturn(scalar field `"@,
                            name@,
                            "`: no matching layout slot)"@,
                            value.range,
                        ),
                    ),
                    Some(i) => Ok(
                        FieldCodeView {
                            ops: f.ops + stored(
                                f.slots.lets,
                                irt,
                                is_variant_list(ty) && *value.expr is List,
                                record,
                                layout.fields@[i].offset,
                                value.range,
                            ),
                            binding: Some(plain_binding(name, f.slots.lets, irt)),
                            slots: f.slots.after(1),
                        },
                    ),
                },
            },
        },
    }
}

fn lower_visible_field<'a, L: RecordLowering>(
    env: &RecordEnv<'_, L>,
    name: &String,
    ty: &TypeRepr,
    schema: &Schema,
    layout: &OffsetTable,
    pairs: &Vec<(TokenKey, Node)>,
    record: u32,
    scope: &Scope<'_>,
    at: &Slots,
) -> (r: Result<FieldCode<'a>, LoweringError>)
    requires
        env.table.wf(),
        layout.fields@.len() == schema.fields@.len(),
    ensures
        code_outcome(r) == visible_code(
            *env,
            *name,
            *ty,
            *schema,
            *layout,
            pairs@,
            record,
            *scope,
            at@,
        ),
{
    let value: &Node = match find_source_value(pairs, name) {
        None => {
            return Err(
                body_failure(
                    "AnonDictReturn(missing source value for scalar field `",
                    name,
                    "`)",
                    TokenRange { start: 0, end: 0 },
                ),
            );
        },
        Some(v) => v,
    };
    let irt: IrType = match type_repr_to_ir_type(ty) {
        Err(e) => {
            return Err(e);
        },
        Ok(t) => t,
    };
    let variant_list: bool = variant_list_literal_for_type(ty, &*value.expr);
    let f: Fragment = match lower_visible_value(env, name, ty, irt, value, scope, at) {
        Err(e) => {
            return Err(e);
        },
        Ok(f) => f,
    };
    let i: usize = match find_field_index(&schema.fields, name.as_str()) {
        None => {
            return Err(
                body_failure(
                    "AnonDictReturn(scalar field `",
                    name,
                    "`: no matching layout slot)",
                    value.range,
                ),
            );
        },
        Some(i) => i,
    };
    let Fragment { ops, slots, .. } = f;
    let mut out: Vec<TaggedOp> = ops;
    let idx: u32 = slots.lets;
    emit_stored(
        &mut out,
        idx,
        irt,
        variant_list,
        record,
        layout.fields[i].offset,
        value.range,
    );
    let binding = LetBinding {
        name: name.clone(),
        idx,
        ty: irt,
        schema_brand: None,
        type_repr: None,
        closure: None,
        constant: None,
    };
    Ok(FieldCode { ops: out, binding: Some(binding), slots: slots.reserve(1) })
}

/// A field that points at a list parameter: the pointer is stored as it is.
pub open spec fn link_code<'a, L: RecordLowering>(
    low: L,
    name: Seq<char>,
    ty: TypeRepr,
    schema: Schema,
    layout: OffsetTable,
    pairs: Seq<(TokenKey, Node)>,
    record: u32,
    scope: Scope<'_>,
    at: SlotsView,
) -> Result<FieldCodeView<'a>, ErrorView> {
    match source_value(pairs, name) {
        None => Err(
            body_error(
                "AnonDictReturn(missing source value for cross-region field `"@,
                name,
                "`)"@,
                no_range(),
            ),
        ),
        Some(value) => match ir_type_of(ty) {
            None => Err(unsupported_type(ty)),
            Some(irt) => match low.lowered(value, scope, at) {
                Err(e) => Err(e),
                Ok(f) => match f.ty {
                    None => Err(
                        body_error(
                            "AnonDictReturn(cross-region field `"@,
                            name,
                            "` produced no value)"@,
                            value.range,
                        ),
                    ),
                    Some(top) => if top != irt {
                        Err(
                            bad_field(
                                name,
                                "cross-region field expected "@ + irt.tag() + ", got "@
                                    + top.tag(),
                                value.range,
                            ),
                        )
                    } else {
                        match field_index(schema.fields@, name, 0) {
                            None => Err(
                                body_error(
                                    "AnonDictReturn(cross-region field `"@,
                                    name,
                                    "`: no matching layout slot)"@,
                                    value.range,
                                ),
                            ),
                            Some(i) => Ok(
                                FieldCodeView {
                                    ops: f.ops.push(
                                        sop(
                                            SimpleOp::StoreFieldAtRecord {
                                                record_local_idx: record,
                                                offset: layout.fields@[i].offset,
                                                ty: irt,
                                            },
                                            value.range,
                                        ),
                                    ),
                                    binding: None,
                                    slots: f.slots,
                                },
                            ),
                        }
                    },
                },
            },
        },
    }
}

fn lower_link_field<'a, L: RecordLowering>(
    name: &String,
    ty: &TypeRepr,
    schema: &Schema,
    layout: &OffsetTable,
    pairs: &Vec<(TokenKey, Node)>,
    record: u32,
    scope: &Scope<'_>,
    at: &Slots,
    low: &L,
) -> (r: Result<FieldCode<'a>, LoweringError>)
    requires
        layout.fields@.len() == schema.fields@.len(),
    ensures
        code_outcome(r) == link_code(
            *low,
            name@,
            *ty,
            *schema,
            *layout,
            pairs@,
            record,
            *scope,
            at@,
        ),
{
    let value: &Node = match find_source_value(pairs, name) {
        None => {
            return Err(
                body_failure(
                    "AnonDictReturn(missing source value for cross-region field `",
                    name,
                    "`)",
                    TokenRange { start: 0, end: 0 },
                ),
            );
        },
        Some(v) => v,
    };
    let irt: IrType = match type_repr_to_ir_type(ty) {
        Err(e) => {
            return Err(e);
        },
        Ok(t) => t,
    };
    let f: Fragment = match low.lower_node(value, scope, at) {
        Err(e) => {
            return Err(e);
        },
        Ok(f) => f,
    };
    let top: IrType = match f.ty {
        None => {
            return Err(
                body_failure(
                    "AnonDictReturn(cross-region field `",
                    name,
                    "` produced no value)",
                    value.range,
                ),
            );
        },
        Some(t) => t,
    };
    if top != irt {
        return Err(
            field_error(
                name.as_str(),
                join3("cross-region field expected ", irt.name(), ", got ").concat(top.name()),
                value.range,
            ),
        );
    }
    let i: usize = match find_field_index(&schema.fields, name.as_str()) {
        None => {
            return Err(
                body_failure(
                    "AnonDictReturn(cross-region field `",
                    name,
                    "`: no matching layout slot)",
                    value.range,
                ),
            );
        },
        Some(i) => i,
    };
    let Fragment { ops, slots, .. } = f;
    let mut out: Vec<TaggedOp> = ops;
    emit_simple(
        &mut out,
        SimpleOp::StoreFieldAtRecord {
            record_local_idx: record,
            offset: layout.fields[i].offset,
            ty: irt,
        },
        value.range,
    );
    Ok(FieldCode { ops: out, binding: None, slots })
}

// ---------------------------------------------------------------------------
// The body.
// ---------------------------------------------------------------------------

/// One field of the plan.
pub open spec fn field_code<'a, L: RecordLowering>(
    env: RecordEnv<'_, L>,
    field: &'a AnonDictField,
    schema: Schema,
    layout: OffsetTable,
    pairs: Seq<(TokenKey, Node)>,
    record: u32,
    scope: Scope<'_>,
    at: SlotsView,
) -> Result<FieldCodeView<'a>, ErrorView> {
    match *field {
        AnonDictField::Closure { name, sig } => closure_code(
            *env.low,
            name,
            &sig,
            pairs,
            scope,
            at,
        ),
        AnonDictField::DictStrInt { name, entries } => Ok(
            constant_code(
                name,
                OpView::ConstDict { idx: at.pool.dicts, entries: entries_view(entries@) },
                IrType::Dict,
                at.with_pool(at.pool.after_dict()),
            ),
        ),
        AnonDictField::ListString { name, elements } => Ok(
            constant_code(
                name,
                OpView::ConstListString { idx: at.pool.string_lists, elements: texts(elements@) },
                IrType::ListString,
                at.with_pool(at.pool.after_string_list()),
            ),
        ),
        AnonDictField::Scalar { name, ty } => visible_code(
            env,
            name,
            ty,
            schema,
            layout,
            pairs,
            record,
            scope,
            at,
        ),
        AnonDictField::CrossRegionParamList { name, ty } => link_code(
            *env.low,
            name@,
            ty,
            schema,
            layout,
            pairs,
            record,
            scope,
            at,
        ),
    }
}

fn lower_plan_field<'a, L: RecordLowering>(
    env: &RecordEnv<'_, L>,
    field: &'a AnonDictField,
    schema: &Schema,
    layout: &OffsetTable,
    pairs: &Vec<(TokenKey, Node)>,
    record: u32,
    scope: &Scope<'_>,
    at: &Slots,
) -> (r: Result<FieldCode<'a>, LoweringError>)
    requires
        env.table.wf(),
        layout.fields@.len() == schema.fields@.len(),
    ensures
        code_outcome(r) == field_code(
            *env,
            field,
            *schema,
            *layout,
            pairs@,
            record,
            *scope,
            at@,
        ),
{
    match field {
        AnonDictField::Closure { name, sig } => lower_closure_field(
            name,
            sig,
            pairs,
            scope,
            at,
            env.low,
        ),
        AnonDictField::DictStrInt { name, entries } => {
            let (idx, pool) = at.pool.alloc_dict_idx();
            let next: Slots = at.repooled(pool);
            let copied: Vec<(String, i64)> = copy_entries(entries);
            let op = Op::ConstDict { idx, entries: copied };
            assert(op_view(op) == (OpView::ConstDict {
                idx,
                entries: entries_view(entries@),
            }));
            Ok(lower_constant_field(name, op, IrType::Dict, &next))
        },
        AnonDictField::ListString { name, elements } => {
            let (idx, pool) = at.pool.alloc_list_string_idx();
            let next: Slots = at.repooled(pool);
            let op = Op::ConstListString { idx, elements: copy_strings(elements) };
            assert(op_view(op) == (OpView::ConstListString {
                idx,
                elements: texts(elements@),
            }));
            Ok(lower_constant_field(name, op, IrType::ListString, &next))
        },
        AnonDictField::Scalar { name, ty } => lower_visible_field(
            env,
            name,
            ty,
            schema,
            layout,
            pairs,
            record,
            scope,
            at,
        ),
        AnonDictField::CrossRegionParamList { name, ty } => lower_link_field(
            name,
            ty,
            schema,
            layout,
            pairs,
            record,
            scope,
            at,
            env.low,
        ),
    }
}

/// The fields of the plan from the position `from` of the order of emission
/// on. Each one sees the let bindings of those before it.
pub open spec fn fields_from<L: RecordLowering>(
    env: RecordEnv<'_, L>,
    plan: AnonDictPlan,
    layout: OffsetTable,
    pairs: Seq<(TokenKey, Node)>,
    record: u32,
    from: int,
    scope: Scope<'_>,
    at: SlotsView,
) -> Result<FragmentView, ErrorView>
    decreases plan.emit_order@.len() - from,
{
    if from < 0 || from >= plan.emit_order@.len() {
        Ok(FragmentView { ops: Seq::empty(), ty: None, slots: at })
    } else {
        match field_code(
            env,
            &plan.fields@[plan.emit_order@[from] as int],
            plan.schema,
            layout,
            pairs,
            record,
            scope,
            at,
        ) {
            Err(e) => Err(e),
            Ok(code) => appended(
                code.ops,
                fields_from(
                    env,
                    plan,
                    layout,
                    pairs,
                    record,
                    from + 1,
                    match code.binding {
                        Some(b) => Scope::Bind(b, &scope),
                        None => scope,
                    },
                    code.slots,
                ),
            ),
        }
    }
}

fn lower_fields_from<L: RecordLowering>(
    env: &RecordEnv<'_, L>,
    plan: &AnonDictPlan,
    layout: &OffsetTable,
    pairs: &Vec<(TokenKey, Node)>,
    record: u32,
    from: usize,
    scope: &Scope<'_>,
    at: &Slots,
) -> (r: Result<Fragment, LoweringError>)
    requires
        env.table.wf(),
        from <= plan.emit_order@.len(),
        layout.fields@.len() == plan.schema.fields@.len(),
        forall|k: int|
            0 <= k < plan.emit_order@.len() ==> (#[trigger] plan.emit_order@[k])
                < plan.fields@.len(),
    ensures
        outcome(r) == fields_from(
            *env,
            *plan,
            *layout,
            pairs@,
            record,
            from as int,
            *scope,
            at@,
        ),
    decreases plan.emit_order@.len() - from,
{
    if from >= plan.emit_order.len() {
        let ops: Vec<TaggedOp> = Vec::new();
        return Ok(Fragment { ops, ty: None, slots: at.copy() });
    }
    let which: usize = plan.emit_order[from];
    let code: FieldCode<'_> = match lower_plan_field(
        env,
        &plan.fields[which],
        &plan.schema,
        layout,
        pairs,
        record,
        scope,
        at,
    ) {
        Err(e) => {
            return Err(e);
        },
        Ok(c) => c,
    };
    let FieldCode { ops, binding, slots } = code;
    let rest = match binding {
        Some(b) => {
            let inner = Scope::Bind(b, scope);
            lower_fields_from(env, plan, layout, pairs, record, from + 1, &inner, &slots)
        },
        None => lower_fields_from(env, plan, layout, pairs, record, from + 1, scope, &slots),
    };
    match rest {
        Err(e) => Err(e),
        Ok(f) => {
            let Fragment { ops: more, ty, slots: behind } = f;
            let mut out: Vec<TaggedOp> = ops;
            emit_all(&mut out, more);
            Ok(Fragment { ops: out, ty, slots: behind })
        },
    }
}

/// Lowers the body of an entry point that returns a dictionary literal, into
/// the record `record_local`.
pub fn lower_anon_dict_body<L: RecordLowering>(
    plan: &AnonDictPlan,
    layout: &OffsetTable,
    dict_pairs: &Vec<(TokenKey, Node)>,
    record_local: u32,
    env: &RecordEnv<'_, L>,
    scope: &Scope<'_>,
    at: &Slots,
) -> (r: Result<Fragment, LoweringError>)
    requires
        env.table.wf(),
        layout.fields@.len() == plan.schema.fields@.len(),
        order_in_range(*plan),
    ensures
        outcome(r) == fields_from(
            *env,
            *plan,
            *layout,
            dict_pairs@,
            record_local,
            0,
            *scope,
            at@,
        ),
{
    lower_fields_from(env, plan, layout, dict_pairs, record_local, 0, scope, at)
}

} // verus!

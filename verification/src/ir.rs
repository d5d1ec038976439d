//! The instruction set that lowering emits, with a mathematical view of it.

use vstd::prelude::*;

use crate::ast::TokenRange;

verus! {

/// The type of a value on the operand stack.
#[derive(Clone, Copy, Debug, PartialEq, Eq, Structural)]
pub enum IrType {
    I32,
    I64,
    F64,
    Bool,
    Unit,
    String,
    ListInt,
    ListFloat,
    ListBool,
    ListString,
    ListSchema,
    ListList,
    Closure,
    Dict,
}

/// The machine slot that a value of some type occupies.
#[derive(Clone, Copy, Debug, PartialEq, Eq, Structural)]
pub enum MachineSlot {
    I32,
    I64,
    F64,
}

impl IrType {
    /// Integers and floats ride in their own 64-bit slots; everything else,
    /// handles and truth values alike, is a 32-bit slot.
    pub open spec fn slot_spec(self) -> MachineSlot {
        match self {
            IrType::I64 => MachineSlot::I64,
            IrType::F64 => MachineSlot::F64,
            _ => MachineSlot::I32,
        }
    }

    /// Executable form of [`IrType::slot_spec`].
    pub fn wasm_slot(self) -> (r: MachineSlot)
        ensures
            r == self.slot_spec(),
    {
        match self {
            IrType::I64 => MachineSlot::I64,
            IrType::F64 => MachineSlot::F64,
            _ => MachineSlot::I32,
        }
    }

    /// The name a program sees for the type; raw 32-bit slots have none.
    pub open spec fn user_text(self) -> Option<Seq<char>> {
        match self {
            IrType::I32 => None,
            IrType::I64 => Some("Int"@),
            IrType::F64 => Some("Float"@),
            IrType::Bool => Some("Bool"@),
            IrType::Unit => Some("Unit"@),
            IrType::String => Some("String"@),
            IrType::ListInt | IrType::ListFloat | IrType::ListBool | IrType::ListString
            | IrType::ListSchema | IrType::ListList => Some("List"@),
            IrType::Closure => Some("Closure"@),
            IrType::Dict => Some("Dict"@),
        }
    }

    /// Executable form of [`IrType::user_text`].
    pub fn user_name(self) -> (r: Option<&'static str>)
        ensures
            match r {
                Some(t) => self.user_text() == Some(t@),
                None => self.user_text() is None,
            },
    {
        match self {
            IrType::I32 => None,
            IrType::I64 => Some("Int"),
            IrType::F64 => Some("Float"),
            IrType::Bool => Some("Bool"),
            IrType::Unit => Some("Unit"),
            IrType::String => Some("String"),
            IrType::ListInt | IrType::ListFloat | IrType::ListBool | IrType::ListString
            | IrType::ListSchema | IrType::ListList => Some("List"),
            IrType::Closure => Some("Closure"),
            IrType::Dict => Some("Dict"),
        }
    }

    /// The tag printed for the type in diagnostics.
    pub open spec fn tag(self) -> Seq<char> {
        match self {
            IrType::I32 => "I32"@,
            IrType::I64 => "I64"@,
            IrType::F64 => "F64"@,
            IrType::Bool => "Bool"@,
            IrType::Unit => "Unit"@,
            IrType::String => "String"@,
            IrType::ListInt => "ListInt"@,
            IrType::ListFloat => "ListFloat"@,
            IrType::ListBool => "ListBool"@,
            IrType::ListString => "ListString"@,
            IrType::ListSchema => "ListSchema"@,
            IrType::ListList => "ListList"@,
            IrType::Closure => "Closure"@,
            IrType::Dict => "Dict"@,
        }
    }

    /// Executable form of [`IrType::tag`].
    pub fn name(self) -> (r: &'static str)
        ensures
            r@ == self.tag(),
    {
        match self {
            IrType::I32 => "I32",
            IrType::I64 => "I64",
            IrType::F64 => "F64",
            IrType::Bool => "Bool",
            IrType::Unit => "Unit",
            IrType::String => "String",
            IrType::ListInt => "ListInt",
            IrType::ListFloat => "ListFloat",
            IrType::ListBool => "ListBool",
            IrType::ListString => "ListString",
            IrType::ListSchema => "ListSchema",
            IrType::ListList => "ListList",
            IrType::Closure => "Closure",
            IrType::Dict => "Dict",
        }
    }
}

/// The reason of a guaranteed trap.
#[derive(Clone, Copy, Debug, PartialEq, Eq, Structural)]
pub enum TrapKind {
    NoMatch,
    IndexOutOfBounds,
}

/// Instructions whose operands are plain numbers and types.
#[allow(inconsistent_fields)]
#[derive(Clone, Copy, Debug, PartialEq, Eq, Structural)]
pub enum SimpleOp {
    ConstI64(i64),
    ConstI32(i32),
    /// A float constant, given by its IEEE-754 bits.
    ConstF64(u64),
    ConstBool(bool),
    LetGet { idx: u32, ty: IrType },
    LetSet { idx: u32, ty: IrType },
    LocalGet(u32),
    Add(IrType),
    Sub(IrType),
    Mul(IrType),
    BitAnd(IrType),
    Eq(IrType),
    Ne(IrType),
    Ge(IrType),
    Gt(IrType),
    ConvertI64ToF64,
    ReadStringLen,
    AllocScratchDyn,
    ListGetByIntIdx,
    LoadField { offset: u32, ty: IrType },
    LoadFieldAtAbsolute { offset: u32, ty: IrType },
    LoadI32AtAbsolute { offset: u32 },
    LoadI64AtAbsolute { offset: u32 },
    LoadF64AtAbsolute { offset: u32 },
    LoadI8UAtAbsolute { offset: u32 },
    StoreI32AtAbsolute { offset: u32 },
    StoreI64AtAbsolute { offset: u32 },
    StoreF64AtAbsolute { offset: u32 },
    LoadStringPtr { offset: u32 },
    LoadListIntPtr { offset: u32 },
    LoadListFloatPtr { offset: u32 },
    LoadListBoolPtr { offset: u32 },
    LoadListStringPtr { offset: u32 },
    LoadListSchemaPtr { offset: u32 },
    LoadListListPtr { offset: u32 },
    LoadSchemaPtr { offset: u32 },
    StoreField { offset: u32, ty: IrType, inplace: bool },
    StoreFieldAtRecord { record_local_idx: u32, offset: u32, ty: IrType },
    StoreFieldAtRecordAbsolute { record_local_idx: u32, offset: u32, ty: IrType },
    AllocRootRecord { record_local_idx: u32 },
    AllocSubRecord { record_local_idx: u32, root_size: u32, root_align: u32 },
    AllocScratchRecord { record_local_idx: u32, root_size: u32, root_align: u32 },
    PushRecordBase { record_local_idx: u32 },
    PushRecordBaseAbsolute { record_local_idx: u32 },
    EmitTailRecordFromAbsoluteAddr { ty: IrType },
    BuildVariantRecord {
        tag: u8,
        record_size: u32,
        record_align: u32,
        payload_offset: Option<u32>,
        payload_ty: Option<IrType>,
    },
    BuildVariantRecordScratch {
        tag: u8,
        record_size: u32,
        record_align: u32,
        payload_offset: Option<u32>,
        payload_ty: Option<IrType>,
    },
    BuildPointerList { len: u32 },
    Br { label_depth: u32 },
    BrIf { label_depth: u32 },
    Trap { kind: TrapKind },
    CheckCap { cap_bit: u32 },
    Return,
}

/// One instruction.
#[allow(inconsistent_fields)]
#[derive(Debug, PartialEq, Eq)]
pub enum Op {
    Simple(SimpleOp),
    ConstString { idx: u32, value: String },
    ConstListInt { idx: u32, elements: Vec<i64> },
    /// Float elements are given by their IEEE-754 bits.
    ConstListFloat { idx: u32, elements: Vec<u64> },
    ConstListBool { idx: u32, elements: Vec<bool> },
    ConstListString { idx: u32, elements: Vec<String> },
    ConstDict { idx: u32, entries: Vec<(String, i64)> },
    Block { result_ty: Option<IrType>, body: Vec<TaggedOp> },
    Loop { result_ty: Option<IrType>, body: Vec<TaggedOp> },
    If { result_ty: IrType, then_body: Vec<TaggedOp>, else_body: Vec<TaggedOp> },
    Call { fn_index: u32, arg_count: u32, param_tys: Vec<IrType>, ret_ty: IrType },
    CallClosure { param_tys: Vec<IrType>, ret_ty: IrType },
    CallNative { import_idx: u32, param_tys: Vec<IrType>, ret_ty: IrType, cap_bit: u32 },
}

/// An instruction with the source span it was emitted for.
#[derive(Debug, PartialEq, Eq)]
pub struct TaggedOp {
    pub op: Op,
    pub range: TokenRange,
}

/// The mathematical value of an [`Op`].
#[allow(inconsistent_fields)]
pub ghost enum OpView {
    Simple(SimpleOp),
    ConstString { idx: u32, value: Seq<char> },
    ConstListInt { idx: u32, elements: Seq<i64> },
    ConstListFloat { idx: u32, elements: Seq<u64> },
    ConstListBool { idx: u32, elements: Seq<bool> },
    ConstListString { idx: u32, elements: Seq<Seq<char>> },
    ConstDict { idx: u32, entries: Seq<(Seq<char>, i64)> },
    Block { result_ty: Option<IrType>, body: Seq<TaggedOpView> },
    Loop { result_ty: Option<IrType>, body: Seq<TaggedOpView> },
    If { result_ty: IrType, then_body: Seq<TaggedOpView>, else_body: Seq<TaggedOpView> },
    Call { fn_index: u32, arg_count: u32, param_tys: Seq<IrType>, ret_ty: IrType },
    CallClosure { param_tys: Seq<IrType>, ret_ty: IrType },
    CallNative { import_idx: u32, param_tys: Seq<IrType>, ret_ty: IrType, cap_bit: u32 },
}

/// The mathematical value of a [`TaggedOp`].
pub ghost struct TaggedOpView {
    pub op: OpView,
    pub range: TokenRange,
}

/// The texts of a sequence of strings.
pub open spec fn texts(s: Seq<String>) -> Seq<Seq<char>> {
    Seq::new(s.len(), |i: int| s[i]@)
}

/// The mathematical value of an instruction stream.
pub open spec fn ops_view(ops: Seq<TaggedOp>) -> Seq<TaggedOpView>
    decreases ops, 0nat,
{
    if ops.len() == 0 {
        Seq::empty()
    } else {
        ops_view(ops.drop_last()).push(tagged_view(ops.last()))
    }
}

/// The mathematical value of a tagged instruction.
pub open spec fn tagged_view(op: TaggedOp) -> TaggedOpView
    decreases op, 0nat,
{
    TaggedOpView { op: op_view(op.op), range: op.range }
}

/// The mathematical value of an instruction.
pub open spec fn op_view(op: Op) -> OpView
    decreases op, 0nat,
{
    match op {
        Op::Simple(s) => OpView::Simple(s),
        Op::ConstString { idx, value } => OpView::ConstString { idx, value: value@ },
        Op::ConstListInt { idx, elements } => OpView::ConstListInt { idx, elements: elements@ },
        Op::ConstListFloat { idx, elements } => OpView::ConstListFloat {
            idx,
            elements: elements@,
        },
        Op::ConstListBool { idx, elements } => OpView::ConstListBool { idx, elements: elements@ },
        Op::ConstListString { idx, elements } => OpView::ConstListString {
            idx,
            elements: texts(elements@),
        },
        Op::ConstDict { idx, entries } => OpView::ConstDict {
            idx,
            entries: Seq::new(
                entries@.len(),
                |i: int| (entries@[i].0@, entries@[i].1),
            ),
        },
        Op::Block { result_ty, body } => OpView::Block { result_ty, body: ops_view(body@) },
        Op::Loop { result_ty, body } => OpView::Loop { result_ty, body: ops_view(body@) },
        Op::If { result_ty, then_body, else_body } => OpView::If {
            result_ty,
            then_body: ops_view(then_body@),
            else_body: ops_view(else_body@),
        },
        Op::Call { fn_index, arg_count, param_tys, ret_ty } => OpView::Call {
            fn_index,
            arg_count,
            param_tys: param_tys@,
            ret_ty,
        },
        Op::CallClosure { param_tys, ret_ty } => OpView::CallClosure {
            param_tys: param_tys@,
            ret_ty,
        },
        Op::CallNative { import_idx, param_tys, ret_ty, cap_bit } => OpView::CallNative {
            import_idx,
            param_tys: param_tys@,
            ret_ty,
            cap_bit,
        },
    }
}

/// Viewing distributes over concatenation.
pub proof fn lemma_ops_view_concat(a: Seq<TaggedOp>, b: Seq<TaggedOp>)
    ensures
        ops_view(a + b) == ops_view(a) + ops_view(b),
    decreases b.len(),
{
    if b.len() == 0 {
        assert(a + b =~= a);
        assert(ops_view(a) + ops_view(b) =~= ops_view(a));
    } else {
        lemma_ops_view_concat(a, b.drop_last());
        assert((a + b).drop_last() =~= a + b.drop_last());
        assert(ops_view(a) + ops_view(b) =~= (ops_view(a) + ops_view(b.drop_last())).push(
            tagged_view(b.last()),
        ));
    }
}

/// A simple instruction with its span, as a view.
pub open spec fn sop(op: SimpleOp, range: TokenRange) -> TaggedOpView {
    TaggedOpView { op: OpView::Simple(op), range }
}

/// Appends one instruction.
pub fn emit(out: &mut Vec<TaggedOp>, op: Op, range: TokenRange)
    ensures
        ops_view(final(out)@) == ops_view(old(out)@).push(
            TaggedOpView { op: op_view(op), range },
        ),
{
    let ghost before = out@;
    out.push(TaggedOp { op, range });
    assert(out@.drop_last() =~= before);
    assert(tagged_view(out@.last()) == (TaggedOpView { op: op_view(op), range }));
}

/// Appends one simple instruction.
pub fn emit_simple(out: &mut Vec<TaggedOp>, op: SimpleOp, range: TokenRange)
    ensures
        ops_view(final(out)@) == ops_view(old(out)@).push(sop(op, range)),
{
    emit(out, Op::Simple(op), range);
}

/// Appends a whole stream.
pub fn emit_all(out: &mut Vec<TaggedOp>, tail: Vec<TaggedOp>)
    ensures
        ops_view(final(out)@) == ops_view(old(out)@) + ops_view(tail@),
{
    let mut rest = tail;
    proof {
        lemma_ops_view_concat(out@, rest@);
    }
    out.append(&mut rest);
}

/// A copy of a list of types.
pub fn copy_types(tys: &Vec<IrType>) -> (r: Vec<IrType>)
    ensures
        r@ == tys@,
{
    let mut out: Vec<IrType> = Vec::new();
    let mut i: usize = 0;
    while i < tys.len()
        invariant
            i <= tys.len(),
            out@ == tys@.take(i as int),
        decreases tys.len() - i,
    {
        out.push(tys[i]);
        assert(tys@.take(i + 1) =~= tys@.take(i as int).push(tys@[i as int]));
        i += 1;
    }
    assert(tys@.take(tys@.len() as int) =~= tys@);
    out
}

/// A copy of a list of strings.
pub fn copy_strings(strings: &Vec<String>) -> (r: Vec<String>)
    ensures
        r@ == strings@,
{
    let mut out: Vec<String> = Vec::new();
    let mut i: usize = 0;
    while i < strings.len()
        invariant
            i <= strings@.len(),
            out@ =~= strings@.take(i as int),
        decreases strings@.len() - i,
    {
        out.push(strings[i].clone());
        i += 1;
    }
    out
}

/// A copy of the entries of a dictionary.
pub fn copy_entries(entries: &Vec<(String, i64)>) -> (r: Vec<(String, i64)>)
    ensures
        r@ == entries@,
{
    let mut out: Vec<(String, i64)> = Vec::new();
    let mut i: usize = 0;
    while i < entries.len()
        invariant
            i <= entries@.len(),
            out@ =~= entries@.take(i as int),
        decreases entries@.len() - i,
    {
        out.push((entries[i].0.clone(), entries[i].1));
        i += 1;
    }
    out
}

fn copy_ints(ints: &Vec<i64>) -> (r: Vec<i64>)
    ensures
        r@ == ints@,
{
    let mut out: Vec<i64> = Vec::new();
    let mut i: usize = 0;
    while i < ints.len()
        invariant
            i <= ints@.len(),
            out@ =~= ints@.take(i as int),
        decreases ints@.len() - i,
    {
        out.push(ints[i]);
        i += 1;
    }
    out
}

fn copy_words(words: &Vec<u64>) -> (r: Vec<u64>)
    ensures
        r@ == words@,
{
    let mut out: Vec<u64> = Vec::new();
    let mut i: usize = 0;
    while i < words.len()
        invariant
            i <= words@.len(),
            out@ =~= words@.take(i as int),
        decreases words@.len() - i,
    {
        out.push(words[i]);
        i += 1;
    }
    out
}

fn copy_truths(truths: &Vec<bool>) -> (r: Vec<bool>)
    ensures
        r@ == truths@,
{
    let mut out: Vec<bool> = Vec::new();
    let mut i: usize = 0;
    while i < truths.len()
        invariant
            i <= truths@.len(),
            out@ =~= truths@.take(i as int),
        decreases truths@.len() - i,
    {
        out.push(truths[i]);
        i += 1;
    }
    out
}

/// A copy of an instruction stream, at any depth.
pub fn copy_ops(ops: &Vec<TaggedOp>) -> (r: Vec<TaggedOp>)
    ensures
        ops_view(r@) == ops_view(ops@),
    decreases ops,
{
    let mut out: Vec<TaggedOp> = Vec::new();
    let mut i: usize = 0;
    assert(ops@.take(0) =~= Seq::empty());
    while i < ops.len()
        invariant
            i <= ops@.len(),
            ops_view(out@) == ops_view(ops@.take(i as int)),
        decreases ops@.len() - i,
    {
        assert(decreases_to!(ops => ops@));
        assert(decreases_to!(ops@ => ops@[i as int]));
        assert(decreases_to!(ops@[i as int] => ops@[i as int].op));
        let op: Op = copy_op(&ops[i].op);
        emit(&mut out, op, ops[i].range);
        assert(ops@.take(i + 1).drop_last() =~= ops@.take(i as int));
        assert(ops@.take(i + 1).last() == ops@[i as int]);
        assert(ops_view(ops@.take(i + 1)) == ops_view(ops@.take(i as int)).push(
            tagged_view(ops@[i as int]),
        ));
        i += 1;
    }
    assert(ops@.take(ops@.len() as int) =~= ops@);
    out
}

fn copy_op(op: &Op) -> (r: Op)
    ensures
        op_view(r) == op_view(*op),
    decreases op,
{
    match op {
        Op::Simple(s) => Op::Simple(*s),
        Op::ConstString { idx, value } => Op::ConstString { idx: *idx, value: value.clone() },
        Op::ConstListInt { idx, elements } => Op::ConstListInt {
            idx: *idx,
            elements: copy_ints(elements),
        },
        Op::ConstListFloat { idx, elements } => Op::ConstListFloat {
            idx: *idx,
            elements: copy_words(elements),
        },
        Op::ConstListBool { idx, elements } => Op::ConstListBool {
            idx: *idx,
            elements: copy_truths(elements),
        },
        Op::ConstListString { idx, elements } => Op::ConstListString {
            idx: *idx,
            elements: copy_strings(elements),
        },
        Op::ConstDict { idx, entries } => {
            let copied = copy_entries(entries);
            let r = Op::ConstDict { idx: *idx, entries: copied };
            assert(op_view(r)->ConstDict_entries =~= op_view(*op)->ConstDict_entries);
            r
        },
        Op::Block { result_ty, body } => Op::Block {
            result_ty: *result_ty,
            body: copy_ops(body),
        },
        Op::Loop { result_ty, body } => Op::Loop { result_ty: *result_ty, body: copy_ops(body) },
        Op::If { result_ty, then_body, else_body } => Op::If {
            result_ty: *result_ty,
            then_body: copy_ops(then_body),
            else_body: copy_ops(else_body),
        },
        Op::Call { fn_index, arg_count, param_tys, ret_ty } => Op::Call {
            fn_index: *fn_index,
            arg_count: *arg_count,
            param_tys: copy_types(param_tys),
            ret_ty: *ret_ty,
        },
        Op::CallClosure { param_tys, ret_ty } => Op::CallClosure {
            param_tys: copy_types(param_tys),
            ret_ty: *ret_ty,
        },
        Op::CallNative { import_idx, param_tys, ret_ty, cap_bit } => Op::CallNative {
            import_idx: *import_idx,
            param_tys: copy_types(param_tys),
            ret_ty: *ret_ty,
            cap_bit: *cap_bit,
        },
    }
}

} // verus!

//! A machine with the instructions that loops, lists and reads are made of, and
//! what a loop over a range computes on it.

use vstd::prelude::*;

use crate::ast::TokenRange;
use crate::ir::{IrType, OpView, SimpleOp, TaggedOpView};
use crate::range_loop::{block_op, exit_guard, loop_op, step_and_loop};

verus! {

/// What was stored at an address: how many bytes, and the value.
pub ghost struct Cell {
    pub width: nat,
    pub value: int,
}

/// What code does not decide itself: what the bundled routines, the host
/// functions and closures give for their operands, the handles of constants, the
/// bits of an integer as a float, where a copy of a value is, and which
/// capabilities are granted. A closure's own handle is the first of its operands.
pub ghost struct World {
    pub routine: spec_fn(u32, Seq<int>) -> int,
    pub native: spec_fn(u32, Seq<int>) -> int,
    pub closure: spec_fn(Seq<int>) -> int,
    pub constant: spec_fn(OpView) -> int,
    pub widened: spec_fn(int) -> int,
    pub copy: spec_fn(IrType, int) -> int,
    pub granted: spec_fn(u32) -> bool,
}

/// The operand stack, the let slots, the memory, the first address of the memory
/// that has not been handed out, the operands of the function, the addresses in
/// the record slots, and the world around.
pub ghost struct Machine {
    pub stack: Seq<int>,
    pub lets: Map<u32, int>,
    pub mem: Map<int, Cell>,
    pub free: int,
    pub locals: Map<u32, int>,
    pub records: Map<u32, int>,
    pub world: World,
}

/// The memory with a value stored. What it overlaps can no longer be read.
pub open spec fn stored_at(mem: Map<int, Cell>, addr: int, width: nat, value: int) -> Map<
    int,
    Cell,
> {
    Map::new(
        |a: int|
            a == addr || (mem.dom().contains(a) && (a + mem[a].width <= addr || addr + width
                <= a)),
        |a: int|
            if a == addr {
                Cell { width, value }
            } else {
                mem[a]
            },
    )
}

/// The value was stored at the address, with the given width.
pub open spec fn reads(mem: Map<int, Cell>, addr: int, width: nat, value: int) -> bool {
    mem.dom().contains(addr) && mem[addr] == (Cell { width, value })
}

/// How a piece of code ends: with the next instruction, with a jump out of so
/// many blocks, with a trap, or not at all within the allowed rounds.
pub ghost enum Flow {
    Next(Machine),
    Jump(nat, Machine),
    Trap,
    Stuck,
}

impl Machine {
    /// With one more operand.
    pub open spec fn pushed(self, v: int) -> Machine {
        Machine { stack: self.stack.push(v), ..self }
    }

    /// With the topmost `k` operands gone.
    pub open spec fn popped(self, k: int) -> Machine {
        Machine { stack: self.stack.take(self.stack.len() - k), ..self }
    }

    /// The operand `k` places below the top.
    pub open spec fn operand(self, k: int) -> int {
        self.stack[self.stack.len() - 1 - k]
    }

    /// With a value stored.
    pub open spec fn with_cell(self, addr: int, width: nat, value: int) -> Machine {
        Machine { mem: stored_at(self.mem, addr, width, value), ..self }
    }

    /// With so many bytes handed out.
    pub open spec fn with_block(self, size: int) -> Machine {
        Machine { free: self.free + size, ..self }
    }

    /// The topmost `k` operands, the topmost last.
    pub open spec fn topmost(self, k: int) -> Seq<int> {
        self.stack.skip(self.stack.len() - k)
    }

    /// With a record slot set.
    pub open spec fn with_record(self, slot: u32, addr: int) -> Machine {
        Machine { records: self.records.insert(slot, addr), ..self }
    }

    /// With a let slot set.
    pub open spec fn with_let(self, slot: u32, v: int) -> Machine {
        Machine { lets: self.lets.insert(slot, v), ..self }
    }
}

/// The number is a 64-bit integer.
pub open spec fn fits(v: int) -> bool {
    i64::MIN <= v <= i64::MAX
}

/// The number, cut down to 32 bits.
pub open spec fn wrapped(v: int) -> int {
    (v + 0x8000_0000) % 0x1_0000_0000 - 0x8000_0000
}

/// The number is a 32-bit integer.
pub open spec fn fits_32(v: int) -> bool {
    i32::MIN <= v <= i32::MAX
}

/// A 32-bit integer stays as it is.
pub broadcast proof fn lemma_wrapped(v: int)
    requires
        fits_32(v),
    ensures
        #[trigger] wrapped(v) == v,
{
}

/// A truth value as an operand.
pub open spec fn truth(v: bool) -> int {
    if v {
        1
    } else {
        0
    }
}

/// Two operands become one value, or a trap where it leaves the 64-bit integers.
pub open spec fn checked_step(s: Machine, v: int) -> Flow {
    if s.stack.len() < 2 {
        Flow::Stuck
    } else if fits(v) {
        Flow::Next(s.popped(2).pushed(v))
    } else {
        Flow::Trap
    }
}

/// Two operands become one value.
pub open spec fn plain_step(s: Machine, v: int) -> Flow {
    if s.stack.len() < 2 {
        Flow::Stuck
    } else {
        Flow::Next(s.popped(2).pushed(v))
    }
}

/// The value at an address that is `offset` above the operand takes its place.
pub open spec fn load_step(s: Machine, offset: u32, width: nat) -> Flow {
    let addr = s.operand(0) + offset;
    if s.stack.len() >= 1 && s.mem.dom().contains(addr) && s.mem[addr].width == width {
        Flow::Next(s.popped(1).pushed(s.mem[addr].value))
    } else {
        Flow::Stuck
    }
}

/// The topmost operand is stored `offset` above the one below it.
pub open spec fn store_step(s: Machine, offset: u32, width: nat) -> Flow {
    if s.stack.len() < 2 {
        Flow::Stuck
    } else {
        Flow::Next(s.popped(2).with_cell(s.operand(1) + offset, width, s.operand(0)))
    }
}

/// How many bytes a value of the type takes in a record: integers and floats
/// eight, truth values one, and everything else is a pointer of four.
pub open spec fn width_of(ty: IrType) -> nat {
    match ty {
        IrType::I64 | IrType::F64 => 8,
        IrType::Bool => 1,
        _ => 4,
    }
}

/// The value at an address becomes an operand.
pub open spec fn push_cell(s: Machine, addr: int, width: nat) -> Flow {
    if s.mem.dom().contains(addr) && s.mem[addr].width == width {
        Flow::Next(s.pushed(s.mem[addr].value))
    } else {
        Flow::Stuck
    }
}

/// The value in the parameter record, which begins at the first operand of the
/// function, becomes an operand.
pub open spec fn param_step(s: Machine, offset: u32, width: nat) -> Flow {
    if s.locals.dom().contains(0) {
        push_cell(s, s.locals[0] + offset, width)
    } else {
        Flow::Stuck
    }
}

/// The topmost operand is stored in a record.
pub open spec fn record_step(s: Machine, record: u32, offset: u32, ty: IrType) -> Flow {
    if s.stack.len() >= 1 && s.records.dom().contains(record) {
        Flow::Next(
            s.popped(1).with_cell(s.records[record] + offset, width_of(ty), s.operand(0)),
        )
    } else {
        Flow::Stuck
    }
}

/// A record of one variant: the tag in the first byte, the payload behind it.
pub open spec fn build_step(
    s: Machine,
    tag: u8,
    size: u32,
    offset: Option<u32>,
    ty: Option<IrType>,
) -> Flow {
    let base = s.free;
    match (offset, ty) {
        (Some(offset), Some(ty)) => if s.stack.len() >= 1 {
            Flow::Next(
                s.popped(1).with_cell(base, 1, tag as int).with_cell(
                    base + offset,
                    width_of(ty),
                    s.operand(0),
                ).with_block(size as int).pushed(base),
            )
        } else {
            Flow::Stuck
        },
        _ => Flow::Next(s.with_cell(base, 1, tag as int).with_block(size as int).pushed(base)),
    }
}

/// The memory with the pointers stored one behind the other.
pub open spec fn pointers_at(mem: Map<int, Cell>, addr: int, values: Seq<int>) -> Map<int, Cell>
    decreases values.len(),
{
    if values.len() == 0 {
        mem
    } else {
        stored_at(
            pointers_at(mem, addr, values.drop_last()),
            addr + 4 * (values.len() - 1),
            4,
            values.last(),
        )
    }
}

/// A list of pointers: how many there are, and behind it each of them.
pub open spec fn list_step(s: Machine, len: u32) -> Flow {
    if s.stack.len() < len {
        Flow::Stuck
    } else {
        let base = s.free;
        let mem = pointers_at(
            stored_at(s.mem, base, 4, len as int),
            base + 4,
            s.topmost(len as int),
        );
        Flow::Next(
            (Machine { mem, ..s.popped(len as int) }).with_block(4 + 4 * len).pushed(base),
        )
    }
}

/// The topmost operands become what a call gives for them.
pub open spec fn call_step(s: Machine, count: int, f: spec_fn(Seq<int>) -> int) -> Flow {
    if s.stack.len() < count {
        Flow::Stuck
    } else {
        Flow::Next(s.popped(count).pushed(f(s.topmost(count))))
    }
}

/// One instruction on parameters, records and variants. The third operand of the
/// function is where the returned record begins; the addresses of records are
/// handed out one behind the other, without the gaps that alignment leaves.
#[verifier::opaque]
pub open spec fn record_op_step(op: SimpleOp, s: Machine) -> Flow {
    let n = s.stack.len();
    match op {
        SimpleOp::Eq(IrType::I32) => plain_step(s, truth(s.operand(1) == s.operand(0))),
        SimpleOp::ConvertI64ToF64 => if n < 1 {
            Flow::Stuck
        } else {
            Flow::Next(s.popped(1).pushed((s.world.widened)(s.operand(0))))
        },
        SimpleOp::ReadStringLen => load_step(s, 0, 4),
        SimpleOp::LocalGet(k) => if s.locals.dom().contains(k) {
            Flow::Next(s.pushed(s.locals[k]))
        } else {
            Flow::Stuck
        },
        SimpleOp::LoadField { offset, ty } => param_step(s, offset, width_of(ty)),
        SimpleOp::LoadStringPtr { offset } => param_step(s, offset, 4),
        SimpleOp::LoadListIntPtr { offset } => param_step(s, offset, 4),
        SimpleOp::LoadListFloatPtr { offset } => param_step(s, offset, 4),
        SimpleOp::LoadListBoolPtr { offset } => param_step(s, offset, 4),
        SimpleOp::LoadListStringPtr { offset } => param_step(s, offset, 4),
        SimpleOp::LoadListSchemaPtr { offset } => param_step(s, offset, 4),
        SimpleOp::LoadListListPtr { offset } => param_step(s, offset, 4),
        SimpleOp::LoadSchemaPtr { offset } => param_step(s, offset, 4),
        SimpleOp::LoadFieldAtAbsolute { offset, ty } => load_step(s, offset, width_of(ty)),
        SimpleOp::StoreField { offset, ty, .. } => if n >= 1 && s.locals.dom().contains(2) {
            Flow::Next(s.popped(1).with_cell(s.locals[2] + offset, width_of(ty), s.operand(0)))
        } else {
            Flow::Stuck
        },
        SimpleOp::StoreFieldAtRecord { record_local_idx, offset, ty } => record_step(
            s,
            record_local_idx,
            offset,
            ty,
        ),
        SimpleOp::StoreFieldAtRecordAbsolute { record_local_idx, offset, ty } => record_step(
            s,
            record_local_idx,
            offset,
            ty,
        ),
        SimpleOp::AllocRootRecord { record_local_idx } => if s.locals.dom().contains(2) {
            Flow::Next(s.with_record(record_local_idx, s.locals[2]))
        } else {
            Flow::Stuck
        },
        SimpleOp::AllocSubRecord { record_local_idx, root_size, .. } => Flow::Next(
            s.with_record(record_local_idx, s.free).with_block(root_size as int),
        ),
        SimpleOp::AllocScratchRecord { record_local_idx, root_size, .. } => Flow::Next(
            s.with_record(record_local_idx, s.free).with_block(root_size as int),
        ),
        SimpleOp::PushRecordBase { record_local_idx } => if s.records.dom().contains(
            record_local_idx,
        ) && s.locals.dom().contains(2) {
            Flow::Next(s.pushed(s.records[record_local_idx] - s.locals[2]))
        } else {
            Flow::Stuck
        },
        SimpleOp::PushRecordBaseAbsolute { record_local_idx } => if s.records.dom().contains(
            record_local_idx,
        ) {
            Flow::Next(s.pushed(s.records[record_local_idx]))
        } else {
            Flow::Stuck
        },
        SimpleOp::EmitTailRecordFromAbsoluteAddr { ty } => if n < 1 {
            Flow::Stuck
        } else {
            Flow::Next(s.popped(1).pushed((s.world.copy)(ty, s.operand(0))))
        },
        SimpleOp::BuildVariantRecord {
            tag,
            record_size,
            payload_offset,
            payload_ty,
            ..
        } => build_step(s, tag, record_size, payload_offset, payload_ty),
        SimpleOp::BuildVariantRecordScratch {
            tag,
            record_size,
            payload_offset,
            payload_ty,
            ..
        } => build_step(s, tag, record_size, payload_offset, payload_ty),
        SimpleOp::BuildPointerList { len } => list_step(s, len),
        SimpleOp::CheckCap { cap_bit } => if (s.world.granted)(cap_bit) {
            Flow::Next(s)
        } else {
            Flow::Trap
        },
        _ => Flow::Stuck,
    }
}

/// One instruction without a body. Arithmetic on 64-bit integers is checked, and
/// on 32-bit integers it wraps. Floats are operands by their bits. A slot keeps
/// what it is set to: nothing is said of code that sets a 32-bit slot to more.
pub open spec fn simple_step(op: SimpleOp, s: Machine) -> Flow {
    let n = s.stack.len();
    match op {
        SimpleOp::ConstI64(v) => Flow::Next(s.pushed(v as int)),
        SimpleOp::ConstI32(v) => Flow::Next(s.pushed(v as int)),
        SimpleOp::ConstF64(bits) => Flow::Next(s.pushed(bits as int)),
        SimpleOp::ConstBool(v) => Flow::Next(s.pushed(truth(v))),
        SimpleOp::LetGet { idx, .. } => if s.lets.dom().contains(idx) {
            Flow::Next(s.pushed(s.lets[idx]))
        } else {
            Flow::Stuck
        },
        SimpleOp::LetSet { idx, .. } => if n >= 1 {
            Flow::Next(s.popped(1).with_let(idx, s.operand(0)))
        } else {
            Flow::Stuck
        },
        SimpleOp::Add(IrType::I64) => checked_step(s, s.operand(1) + s.operand(0)),
        SimpleOp::Sub(IrType::I64) => checked_step(s, s.operand(1) - s.operand(0)),
        SimpleOp::Mul(IrType::I64) => checked_step(s, s.operand(1) * s.operand(0)),
        SimpleOp::Add(IrType::I32) => plain_step(s, wrapped(s.operand(1) + s.operand(0))),
        SimpleOp::Mul(IrType::I32) => plain_step(s, wrapped(s.operand(1) * s.operand(0))),
        SimpleOp::BitAnd(IrType::I32) => plain_step(
            s,
            ((s.operand(1) as i32) & (s.operand(0) as i32)) as int,
        ),
        SimpleOp::Ge(IrType::I64) => plain_step(s, truth(s.operand(1) >= s.operand(0))),
        SimpleOp::Ge(IrType::I32) => plain_step(s, truth(s.operand(1) >= s.operand(0))),
        SimpleOp::Gt(IrType::I64) => plain_step(s, truth(s.operand(1) > s.operand(0))),
        SimpleOp::Ne(IrType::I32) => plain_step(s, truth(s.operand(1) != s.operand(0))),
        SimpleOp::Eq(IrType::Bool) => plain_step(s, truth(s.operand(1) == s.operand(0))),
        SimpleOp::AllocScratchDyn => if n < 1 || s.operand(0) < 0 {
            Flow::Stuck
        } else {
            Flow::Next(s.popped(1).pushed(s.free).with_block(s.operand(0)))
        },
        SimpleOp::LoadI8UAtAbsolute { offset } => load_step(s, offset, 1),
        SimpleOp::LoadI32AtAbsolute { offset } => load_step(s, offset, 4),
        SimpleOp::LoadI64AtAbsolute { offset } => load_step(s, offset, 8),
        SimpleOp::LoadF64AtAbsolute { offset } => load_step(s, offset, 8),
        SimpleOp::StoreI32AtAbsolute { offset } => store_step(s, offset, 4),
        SimpleOp::StoreI64AtAbsolute { offset } => store_step(s, offset, 8),
        SimpleOp::StoreF64AtAbsolute { offset } => store_step(s, offset, 8),
        SimpleOp::Trap { .. } => Flow::Trap,
        SimpleOp::BrIf { label_depth } => if n < 1 {
            Flow::Stuck
        } else if s.operand(0) != 0 {
            Flow::Jump(label_depth as nat, s.popped(1))
        } else {
            Flow::Next(s.popped(1))
        },
        SimpleOp::Br { label_depth } => Flow::Jump(label_depth as nat, s),
        other => record_op_step(other, s),
    }
}

/// One call or constant.
#[verifier::opaque]
pub open spec fn call_op_step(op: OpView, s: Machine) -> Flow {
    match op {
        OpView::Call { fn_index, arg_count, .. } => call_step(
            s,
            arg_count as int,
            |args: Seq<int>| (s.world.routine)(fn_index, args),
        ),
        OpView::CallNative { import_idx, param_tys, .. } => call_step(
            s,
            param_tys.len() as int,
            |args: Seq<int>| (s.world.native)(import_idx, args),
        ),
        OpView::CallClosure { param_tys, .. } => call_step(
            s,
            param_tys.len() as int + 1,
            s.world.closure,
        ),
        constant => Flow::Next(s.pushed((s.world.constant)(constant))),
    }
}

/// The flow behind the end of a block: a jump to the block goes on there.
pub open spec fn behind_block(flow: Flow) -> Flow {
    match flow {
        Flow::Jump(n, s) => if n == 0 {
            Flow::Next(s)
        } else {
            Flow::Jump((n - 1) as nat, s)
        },
        other => other,
    }
}

/// One instruction; a loop goes round at most `rounds` times.
pub open spec fn step(op: TaggedOpView, s: Machine, rounds: nat) -> Flow
    decreases rounds, op, 0nat, 0nat,
{
    match op.op {
        OpView::Simple(simple) => simple_step(simple, s),
        OpView::Block { body, .. } => behind_block(run_from(body, 0, s, rounds)),
        OpView::If { then_body, else_body, .. } => if s.stack.len() < 1 {
            Flow::Stuck
        } else if s.operand(0) != 0 {
            behind_block(run_from(then_body, 0, s.popped(1), rounds))
        } else {
            behind_block(run_from(else_body, 0, s.popped(1), rounds))
        },
        OpView::Loop { body, .. } => if rounds == 0 {
            Flow::Stuck
        } else {
            match run_from(body, 0, s, (rounds - 1) as nat) {
                Flow::Jump(n, next) => if n == 0 {
                    step(op, next, (rounds - 1) as nat)
                } else {
                    Flow::Jump((n - 1) as nat, next)
                },
                other => other,
            }
        },
        other => call_op_step(other, s),
    }
}

/// The instructions at and behind `k`.
pub open spec fn run_from(ops: Seq<TaggedOpView>, k: nat, s: Machine, rounds: nat) -> Flow
    decreases rounds, ops, 1nat, ops.len() - k,
{
    if k >= ops.len() {
        Flow::Next(s)
    } else {
        match step(ops[k as int], s, rounds) {
            Flow::Next(next) => run_from(ops, k + 1, next, rounds),
            other => other,
        }
    }
}

/// All the instructions.
pub open spec fn run(ops: Seq<TaggedOpView>, s: Machine, rounds: nat) -> Flow {
    run_from(ops, 0, s, rounds)
}

/// A simple instruction hands on to the rest of the code, or ends it.
pub proof fn lemma_simple(
    ops: Seq<TaggedOpView>,
    k: nat,
    op: SimpleOp,
    s: Machine,
    rounds: nat,
)
    requires
        k < ops.len(),
        ops[k as int].op == OpView::Simple(op),
    ensures
        match simple_step(op, s) {
            Flow::Next(t) => run_from(ops, k, s, rounds) == run_from(ops, k + 1, t, rounds),
            other => run_from(ops, k, s, rounds) == other,
        },
{
    assert(step(ops[k as int], s, rounds) == simple_step(op, s));
}

/// A simple instruction hands on to the rest of the code, or ends it.
pub broadcast proof fn lemma_straight(ops: Seq<TaggedOpView>, k: nat, s: Machine, rounds: nat)
    requires
        k < ops.len(),
        ops[k as int].op is Simple,
    ensures
        #[trigger] run_from(ops, k, s, rounds) == match simple_step(ops[k as int].op->Simple_0, s) {
            Flow::Next(t) => run_from(ops, k + 1, t, rounds),
            other => other,
        },
{
    assert(step(ops[k as int], s, rounds) == simple_step(ops[k as int].op->Simple_0, s));
}

/// Behind the last instruction nothing happens.
pub broadcast proof fn lemma_ended(ops: Seq<TaggedOpView>, k: nat, s: Machine, rounds: nat)
    requires
        k == ops.len(),
    ensures
        #[trigger] run_from(ops, k, s, rounds) == Flow::Next(s),
{
}

/// What was pushed is popped.
pub broadcast proof fn lemma_pop_pushed(s: Machine, x: int)
    ensures
        #[trigger] s.pushed(x).popped(1) == s,
{
    assert(s.pushed(x).popped(1).stack =~= s.stack);
}

/// What was pushed is on top.
pub broadcast proof fn lemma_top_pushed(s: Machine, x: int)
    ensures
        #[trigger] s.pushed(x).operand(0) == x,
{
}

/// What was pushed twice is popped.
pub broadcast proof fn lemma_pop_two_pushed(s: Machine, x: int, y: int)
    ensures
        #[trigger] s.pushed(x).pushed(y).popped(2) == s,
{
    assert(s.pushed(x).pushed(y).popped(2).stack =~= s.stack);
}

/// What was pushed first is below the top.
pub broadcast proof fn lemma_next_pushed(s: Machine, x: int, y: int)
    ensures
        #[trigger] s.pushed(x).pushed(y).operand(1) == x,
{
}

/// Straight code.
pub broadcast group group_straight {
    lemma_straight,
    lemma_ended,
    lemma_pop_pushed,
    lemma_top_pushed,
    lemma_pop_two_pushed,
    lemma_next_pushed,
    lemma_wrapped,
}

/// What was pushed is popped.
pub proof fn lemma_popped(s: Machine, x: int, y: int)
    ensures
        s.pushed(x).popped(1) == s,
        s.pushed(x).operand(0) == x,
        s.pushed(x).pushed(y).popped(2) == s,
        s.pushed(x).pushed(y).operand(0) == y,
        s.pushed(x).pushed(y).operand(1) == x,
{
    assert(s.pushed(x).popped(1).stack =~= s.stack);
    assert(s.pushed(x).pushed(y).popped(2).stack =~= s.stack);
}

/// Running a concatenation runs the parts one behind the other.
proof fn lemma_run_rest(
    first: Seq<TaggedOpView>,
    rest: Seq<TaggedOpView>,
    k: nat,
    s: Machine,
    rounds: nat,
)
    requires
        k <= rest.len(),
    ensures
        run_from(first + rest, first.len() + k, s, rounds) == run_from(rest, k, s, rounds),
    decreases rest.len() - k,
{
    if k < rest.len() {
        assert((first + rest)[first.len() + k as int] == rest[k as int]);
        match step(rest[k as int], s, rounds) {
            Flow::Next(t) => {
                lemma_run_rest(first, rest, k + 1, t, rounds);
            },
            _ => {},
        }
    }
}

/// Running a concatenation runs the parts one behind the other.
pub proof fn lemma_run_concat(
    first: Seq<TaggedOpView>,
    rest: Seq<TaggedOpView>,
    k: nat,
    s: Machine,
    rounds: nat,
)
    requires
        k <= first.len(),
    ensures
        run_from(first + rest, k, s, rounds) == match run_from(first, k, s, rounds) {
            Flow::Next(t) => run(rest, t, rounds),
            other => other,
        },
    decreases first.len() - k,
{
    if k < first.len() {
        assert((first + rest)[k as int] == first[k as int]);
        match step(first[k as int], s, rounds) {
            Flow::Next(t) => {
                lemma_run_concat(first, rest, k + 1, t, rounds);
            },
            _ => {},
        }
    } else {
        lemma_run_rest(first, rest, 0, s, rounds);
    }
}

/// The slots of a loop are set, and the bounds are 64-bit integers.
pub open spec fn ready(s: Machine, start: u32, end: u32, acc: u32) -> bool {
    &&& s.lets.dom().contains(start)
    &&& s.lets.dom().contains(end)
    &&& s.lets.dom().contains(acc)
    &&& fits(s.lets[start])
    &&& fits(s.lets[end])
}

/// The slots below `base` are the same in both.
pub open spec fn same_below(s: Machine, t: Machine, base: int) -> bool {
    forall|slot: u32|
        slot < base ==> (#[trigger] s.lets.dom().contains(slot) == t.lets.dom().contains(slot)
            && s.lets[slot] == t.lets[slot])
}

/// Of the slots that stay, fewer stay.
pub proof fn lemma_same_less(s: Machine, t: Machine, base: int, more: int)
    requires
        base <= more,
        same_below(s, t, more),
    ensures
        same_below(s, t, base),
{
}

/// Slots that stay twice stay.
pub proof fn lemma_same_chain(s: Machine, t: Machine, u: Machine, base: int, inner: int)
    requires
        same_below(s, t, base),
        same_below(t, u, inner),
        base <= inner,
    ensures
        same_below(s, u, base),
{
    assert forall|slot: u32| slot < base implies (#[trigger] s.lets.dom().contains(slot)
        == u.lets.dom().contains(slot) && s.lets[slot] == u.lets[slot]) by {
        assert(t.lets.dom().contains(slot) == u.lets.dom().contains(slot));
    }
}

/// The slots of the context are set to its values.
pub open spec fn holds(ctx: Map<u32, int>, s: Machine) -> bool {
    forall|slot: u32| #[trigger]
        ctx.dom().contains(slot) ==> s.lets.dom().contains(slot) && s.lets[slot] == ctx[slot]
}

/// Every slot of the context is below `base`.
pub open spec fn context_below(ctx: Map<u32, int>, base: int) -> bool {
    forall|slot: u32| #[trigger] ctx.dom().contains(slot) ==> slot < base
}

/// A context that lies in the slots that stay still holds.
pub proof fn lemma_still_holds(ctx: Map<u32, int>, s: Machine, t: Machine, base: int)
    requires
        holds(ctx, s),
        context_below(ctx, base),
        same_below(s, t, base),
    ensures
        holds(ctx, t),
{
    assert forall|slot: u32| #[trigger] ctx.dom().contains(slot) implies t.lets.dom().contains(slot)
        && t.lets[slot] == ctx[slot] by {
        assert(s.lets.dom().contains(slot) == t.lets.dom().contains(slot));
    }
}

/// The code takes the accumulator `p` and the counter `i` to `f(p, i)`, or traps
/// where that is `None`, whenever the context holds. The bounds, the operands and
/// the slots below the counter stay. Its loops go round at most `n` times.
pub open spec fn rounds_on(
    ctx: Map<u32, int>,
    code: Seq<TaggedOpView>,
    start: u32,
    end: u32,
    acc: u32,
    f: spec_fn(int, int) -> Option<int>,
    n: nat,
) -> bool {
    forall|s: Machine, rounds: nat|
        holds(ctx, s) && ready(s, start, end, acc) && rounds >= n ==> match f(
            s.lets[acc],
            s.lets[start],
        ) {
            None => #[trigger] run(code, s, rounds) == Flow::Trap,
            Some(v) => {
                &&& run(code, s, rounds) matches Flow::Next(t)
                &&& t.stack == s.stack
                &&& ready(t, start, end, acc)
                &&& t.lets[start] == s.lets[start]
                &&& t.lets[end] == s.lets[end]
                &&& t.lets[acc] == v
                &&& same_below(s, t, start as int)
            },
        }
}

/// `f` folded over the integers from `a` up to `b`, which is left out: nothing
/// where `a >= b`, `None` as soon as one step is.
pub open spec fn folded(f: spec_fn(int, int) -> Option<int>, seed: int, a: int, b: int) -> Option<
    int,
>
    decreases b - a,
{
    if a >= b {
        Some(seed)
    } else {
        match f(seed, a) {
            None => None,
            Some(v) => folded(f, v, a + 1, b),
        }
    }
}

/// What runs in a loop: the guard, the code of one round, and the step.
pub open spec fn round_body(
    start: u32,
    end: u32,
    code: Seq<TaggedOpView>,
    range: TokenRange,
) -> Seq<TaggedOpView> {
    exit_guard(start, end, IrType::I64, 1, range) + (code + step_and_loop(start, range))
}

/// The guard leaves the loop behind the last element.
proof fn lemma_guard(
    start: u32,
    end: u32,
    rest: Seq<TaggedOpView>,
    range: TokenRange,
    s: Machine,
    acc: u32,
    rounds: nat,
)
    requires
        ready(s, start, end, acc),
    ensures
        run(exit_guard(start, end, IrType::I64, 1, range) + rest, s, rounds) == if s.lets[start]
            >= s.lets[end] {
            Flow::Jump(1, s)
        } else {
            run(rest, s, rounds)
        },
{
    let guard = exit_guard(start, end, IrType::I64, 1, range);
    let x = s.lets[start];
    let y = s.lets[end];
    lemma_popped(s, x, y);
    lemma_popped(s, 0, 0);
    lemma_popped(s, 1, 0);
    lemma_simple(guard, 0, SimpleOp::LetGet { idx: start, ty: IrType::I64 }, s, rounds);
    lemma_simple(guard, 1, SimpleOp::LetGet { idx: end, ty: IrType::I64 }, s.pushed(x), rounds);
    lemma_simple(guard, 2, SimpleOp::Ge(IrType::I64), s.pushed(x).pushed(y), rounds);
    lemma_simple(guard, 3, SimpleOp::BrIf { label_depth: 1 }, s.pushed(truth(x >= y)), rounds);
    lemma_run_concat(guard, rest, 0, s, rounds);
}

/// The counter goes up by one, and the loop starts again.
proof fn lemma_advance(start: u32, range: TokenRange, s: Machine, rounds: nat)
    requires
        s.lets.dom().contains(start),
        fits(s.lets[start] + 1),
    ensures
        run(step_and_loop(start, range), s, rounds) == Flow::Jump(
            0,
            s.with_let(start, s.lets[start] + 1),
        ),
{
    let code = step_and_loop(start, range);
    let ty = IrType::I64;
    let x = s.lets[start];
    lemma_popped(s, x, 1);
    lemma_popped(s, x + 1, 0);
    lemma_simple(code, 0, SimpleOp::LetGet { idx: start, ty }, s, rounds);
    lemma_simple(code, 1, SimpleOp::ConstI64(1), s.pushed(x), rounds);
    lemma_simple(code, 2, SimpleOp::Add(ty), s.pushed(x).pushed(1), rounds);
    lemma_simple(code, 3, SimpleOp::LetSet { idx: start, ty }, s.pushed(x + 1), rounds);
    lemma_simple(code, 4, SimpleOp::Br { label_depth: 0 }, s.with_let(start, x + 1), rounds);
}

/// The loop folds its rounds over the elements that are left.
proof fn lemma_rounds_fold(
    ctx: Map<u32, int>,
    start: u32,
    end: u32,
    acc: u32,
    code: Seq<TaggedOpView>,
    f: spec_fn(int, int) -> Option<int>,
    n: nat,
    range: TokenRange,
    s: Machine,
    rounds: nat,
)
    requires
        start < end,
        start < acc,
        end != acc,
        context_below(ctx, start as int),
        rounds_on(ctx, code, start, end, acc, f, n),
        holds(ctx, s),
        ready(s, start, end, acc),
        rounds > n,
        rounds > n + s.lets[end] - s.lets[start],
    ensures
        ({
            let body = round_body(start, end, code, range);
            let whole = TaggedOpView { op: OpView::Loop { result_ty: None, body }, range };
            match folded(f, s.lets[acc], s.lets[start], s.lets[end]) {
                None => step(whole, s, rounds) == Flow::Trap,
                Some(v) => {
                    &&& step(whole, s, rounds) matches Flow::Jump(k, t)
                    &&& k == 0
                    &&& t.stack == s.stack
                    &&& ready(t, start, end, acc)
                    &&& t.lets[acc] == v
                    &&& same_below(s, t, start as int)
                },
            }
        }),
    decreases rounds,
{
    let body = round_body(start, end, code, range);
    let whole = TaggedOpView { op: OpView::Loop { result_ty: None, body }, range };
    let left = (rounds - 1) as nat;
    let i = s.lets[start];
    let rest = code + step_and_loop(start, range);
    lemma_guard(start, end, rest, range, s, acc, left);
    if i < s.lets[end] {
        lemma_run_concat(code, step_and_loop(start, range), 0, s, left);
        match f(s.lets[acc], i) {
            None => {
                assert(run(code, s, left) == Flow::Trap);
            },
            Some(v) => {
                let t = run(code, s, left)->Next_0;
                lemma_advance(start, range, t, left);
                let u = t.with_let(start, i + 1);
                assert(run(body, s, left) == Flow::Jump(0, u));
                lemma_same_chain(s, t, u, start as int, start as int);
                lemma_still_holds(ctx, s, u, start as int);
                lemma_rounds_fold(ctx, start, end, acc, code, f, n, range, u, left);
                if folded(f, v, i + 1, u.lets[end]) is Some {
                    let last = step(whole, u, left)->Jump_1;
                    lemma_same_chain(s, u, last, start as int, start as int);
                }
            },
        }
    }
}

/// A loop folds the code of its round over the elements from the counter up to
/// the bound.
pub proof fn law_loop_folds(
    ctx: Map<u32, int>,
    start: u32,
    end: u32,
    acc: u32,
    code: Seq<TaggedOpView>,
    f: spec_fn(int, int) -> Option<int>,
    n: nat,
    range: TokenRange,
    s: Machine,
    rounds: nat,
)
    requires
        start < end,
        start < acc,
        end != acc,
        context_below(ctx, start as int),
        rounds_on(ctx, code, start, end, acc, f, n),
        holds(ctx, s),
        ready(s, start, end, acc),
        rounds > n,
        rounds > n + s.lets[end] - s.lets[start],
    ensures
        ({
            let whole = loop_op(round_body(start, end, code, range), range);
            match folded(f, s.lets[acc], s.lets[start], s.lets[end]) {
                None => step(whole, s, rounds) == Flow::Trap,
                Some(v) => {
                    &&& step(whole, s, rounds) matches Flow::Next(t)
                    &&& t.stack == s.stack
                    &&& ready(t, start, end, acc)
                    &&& t.lets[acc] == v
                    &&& same_below(s, t, start as int)
                },
            }
        }),
{
    lemma_rounds_fold(ctx, start, end, acc, code, f, n, range, s, rounds);
    let body = round_body(start, end, code, range);
    let whole = TaggedOpView { op: OpView::Loop { result_ty: None, body }, range };
    let outer = seq![whole];
    assert(outer[0] == whole);
    assert(run_from(outer, 0, s, rounds) == step(whole, s, rounds));
    assert(step(block_op(outer, range), s, rounds) == behind_block(run_from(outer, 0, s, rounds)));
}

} // verus!

//! What the code that fills records and builds variants leaves in memory.

use vstd::prelude::*;

use crate::ast::{CallArg, Node, TokenRange};
use crate::error::ErrorView;
use crate::fragment::{FragmentView, Scope, SlotsView};
use crate::ir::{sop, IrType, SimpleOp, TaggedOpView};
use crate::meaning::{
    fits_32, lemma_popped, lemma_run_concat, lemma_simple, lemma_wrapped, reads, record_op_step,
    run, run_from, same_below, simple_step, width_of, Flow, Machine,
};
use crate::meaning_match::{carries_record, carries_value};
use crate::meaning_records::{lemma_one_more, lemma_single};
use crate::records::{
    alloc_op, base_as_absolute, base_pointer, build_op, called_variant, field_store_op,
    payload_fields, record_ir_type, tuple_variant, variant_record, FieldSlot, LayoutView,
    RecordEnv, RecordLowering,
};
use crate::types::{EnumVariant, Schema, TypeRepr};
use crate::variant::{law_payload_offset, payload_offset, slot_layout, variant_align, variant_index};

verus! {

// ---------------------------------------------------------------------------
// What stays.
// ---------------------------------------------------------------------------

/// Everything that is stored lies below the memory that has not been handed out.
pub open spec fn tight(s: Machine) -> bool {
    forall|a: int| #[trigger]
        s.mem.dom().contains(a) ==> 0 < s.mem[a].width && a + s.mem[a].width <= s.free
}

/// The record slots below `base` are the same in both.
pub open spec fn same_records(s: Machine, t: Machine, base: u32) -> bool {
    forall|r: u32|
        r < base ==> (#[trigger] s.records.dom().contains(r) == t.records.dom().contains(r)
            && s.records[r] == t.records[r])
}

/// The machine knows all that it knew: the slots below the given ones, what is
/// stored outside of the addresses from `lo` up to `hi`, the operands of the
/// function and the world are as they were.
pub open spec fn undisturbed(s: Machine, t: Machine, at: SlotsView, lo: int, hi: int) -> bool {
    &&& same_below(s, t, at.lets as int)
    &&& same_records(s, t, at.records)
    &&& s.free <= t.free
    &&& t.locals == s.locals
    &&& t.world == s.world
    &&& forall|a: int| #[trigger]
        s.mem.dom().contains(a) && (a + s.mem[a].width <= lo || hi <= a) ==> t.mem.dom().contains(
            a,
        ) && t.mem[a] == s.mem[a]
}

/// The fragment takes slots of its own, and where its code comes to its end it
/// has left one value and disturbed nothing.
pub open spec fn steady(f: FragmentView, at: SlotsView, rounds: nat) -> bool {
    &&& at.lets <= f.slots.lets
    &&& at.records <= f.slots.records
    &&& forall|s: Machine|
        tight(s) ==> match #[trigger] run(f.ops, s, rounds) {
            Flow::Next(t) => tight(t) && undisturbed(s, t, at, s.free, s.free) && t.stack
                == s.stack.push(t.operand(0)),
            _ => true,
        }
}

/// The code, run where the machine knows all that it knew at first, leaves `v`.
pub open spec fn evaluates(
    code: Seq<TaggedOpView>,
    s: Machine,
    at: SlotsView,
    lo: int,
    hi: int,
    u: Machine,
    t: Machine,
    v: int,
    rounds: nat,
) -> bool {
    &&& tight(u)
    &&& undisturbed(s, u, at, lo, hi)
    &&& run(code, u, rounds) == Flow::Next(t)
    &&& t.stack == u.stack.push(v)
}

/// What was not disturbed twice was not disturbed.
pub proof fn lemma_undisturbed_chain(
    s: Machine,
    t: Machine,
    u: Machine,
    at: SlotsView,
    later: SlotsView,
    lo: int,
    hi: int,
)
    requires
        tight(t),
        undisturbed(s, t, at, lo, hi),
        undisturbed(t, u, later, t.free, t.free),
        at.lets <= later.lets,
        at.records <= later.records,
    ensures
        undisturbed(s, u, at, lo, hi),
        forall|a: int| #[trigger]
            t.mem.dom().contains(a) ==> u.mem.dom().contains(a) && u.mem[a] == t.mem[a],
{
    assert forall|a: int| #[trigger] t.mem.dom().contains(a) implies u.mem.dom().contains(a)
        && u.mem[a] == t.mem[a] by {}
    assert forall|slot: u32| slot < at.lets implies (#[trigger] s.lets.dom().contains(slot)
        == u.lets.dom().contains(slot) && s.lets[slot] == u.lets[slot]) by {
        assert(t.lets.dom().contains(slot) == u.lets.dom().contains(slot));
    }
    assert forall|r: u32| r < at.records implies (#[trigger] s.records.dom().contains(r)
        == u.records.dom().contains(r) && s.records[r] == u.records[r]) by {
        assert(t.records.dom().contains(r) == u.records.dom().contains(r));
    }
}

/// A value that is stored disturbs only what it overlaps.
pub proof fn lemma_cell_stored(
    s: Machine,
    t: Machine,
    at: SlotsView,
    lo: int,
    hi: int,
    addr: int,
    width: nat,
    v: int,
)
    requires
        tight(t),
        undisturbed(s, t, at, lo, hi),
        lo <= addr,
        addr + width <= hi,
        hi <= t.free,
        width > 0,
    ensures
        ({
            let u = t.with_cell(addr, width, v);
            &&& tight(u)
            &&& undisturbed(s, u, at, lo, hi)
            &&& reads(u.mem, addr, width, v)
            &&& forall|a: int| #[trigger]
                t.mem.dom().contains(a) && (a + t.mem[a].width <= addr || addr + width <= a)
                    ==> u.mem.dom().contains(a) && u.mem[a] == t.mem[a]
        }),
{
    let u = t.with_cell(addr, width, v);
    assert forall|a: int| #[trigger] u.mem.dom().contains(a) implies 0 < u.mem[a].width && a
        + u.mem[a].width <= u.free by {
        if a != addr {
            assert(t.mem.dom().contains(a));
        }
    }
    assert forall|a: int| #[trigger]
        s.mem.dom().contains(a) && (a + s.mem[a].width <= lo || hi
            <= a) implies u.mem.dom().contains(a) && u.mem[a] == s.mem[a] by {
        assert(t.mem.dom().contains(a));
    }
    assert forall|slot: u32| slot < at.lets implies (#[trigger] s.lets.dom().contains(slot)
        == u.lets.dom().contains(slot) && s.lets[slot] == u.lets[slot]) by {
        assert(t.lets.dom().contains(slot) == u.lets.dom().contains(slot));
    }
    assert forall|r: u32| r < at.records implies (#[trigger] s.records.dom().contains(r)
        == u.records.dom().contains(r) && s.records[r] == u.records[r]) by {
        assert(t.records.dom().contains(r) == u.records.dom().contains(r));
    }
}

/// The state after the popped value.
proof fn lemma_pop_value(s: Machine, t: Machine)
    requires
        t.stack == s.stack.push(t.operand(0)),
    ensures
        t.popped(1).stack == s.stack,
        t.stack.len() > 0,
{
    assert(t.popped(1).stack =~= s.stack);
}

/// Undisturbed but for the operands.
proof fn lemma_undisturbed_popped(
    s: Machine,
    t: Machine,
    k: int,
    at: SlotsView,
    lo: int,
    hi: int,
)
    requires
        undisturbed(s, t, at, lo, hi),
    ensures
        undisturbed(s, t.popped(k), at, lo, hi),
        tight(t) ==> tight(t.popped(k)),
{
}

/// A value behind code that has filled a part of the record, and the store of
/// it: the code before has run, then the value's code, and the value is where it
/// was to be stored.
proof fn lemma_field_stored(
    pre: Seq<TaggedOpView>,
    f: FragmentView,
    later: SlotsView,
    store: SimpleOp,
    range: TokenRange,
    s: Machine,
    u: Machine,
    at: SlotsView,
    lo: int,
    hi: int,
    record: u32,
    offset: u32,
    ty: IrType,
    rounds: nat,
)
    requires
        run(pre, s, rounds) == Flow::Next(u),
        tight(u),
        undisturbed(s, u, at, lo, hi),
        steady(f, later, rounds),
        at.lets <= later.lets,
        at.records <= later.records,
        record < at.records,
        s.records.dom().contains(record),
        store == (SimpleOp::StoreFieldAtRecord { record_local_idx: record, offset, ty }) || store
            == (SimpleOp::StoreFieldAtRecordAbsolute { record_local_idx: record, offset, ty }),
        lo <= s.records[record] + offset,
        s.records[record] + offset + width_of(ty) <= hi,
        hi <= s.free,
    ensures
        !(run(f.ops, u, rounds) is Next) ==> run((pre + f.ops).push(sop(store, range)), s, rounds)
            == run(f.ops, u, rounds),
        run(f.ops, u, rounds) matches Flow::Next(t) ==> {
            &&& run((pre + f.ops).push(sop(store, range)), s, rounds) matches Flow::Next(end)
            &&& evaluates(f.ops, s, at, lo, hi, u, t, t.operand(0), rounds)
            &&& end.stack == u.stack
            &&& tight(end)
            &&& undisturbed(s, end, at, lo, hi)
            &&& reads(end.mem, s.records[record] + offset, width_of(ty), t.operand(0))
            &&& forall|a: int| #[trigger]
                u.mem.dom().contains(a) && (a + u.mem[a].width <= s.records[record] + offset
                    || s.records[record] + offset + width_of(ty) <= a) ==> end.mem.dom().contains(a)
                    && end.mem[a] == u.mem[a]
        },
{
    reveal(record_op_step);
    let last = seq![sop(store, range)];
    assert((pre + f.ops).push(sop(store, range)) =~= pre + (f.ops + last));
    lemma_run_concat(pre, f.ops + last, 0, s, rounds);
    lemma_run_concat(f.ops, last, 0, u, rounds);
    match run(f.ops, u, rounds) {
        Flow::Next(t) => {
            lemma_undisturbed_chain(s, u, t, at, later, lo, hi);
            lemma_pop_value(u, t);
            lemma_undisturbed_popped(s, t, 1, at, lo, hi);
            lemma_simple(last, 0, store, t, rounds);
            assert(u.records.dom().contains(record) == s.records.dom().contains(record));
            assert(t.records.dom().contains(record) == s.records.dom().contains(record));
            let bare = t.popped(1);
            let addr = s.records[record] + offset;
            lemma_cell_stored(s, bare, at, lo, hi, addr, width_of(ty), t.operand(0));
            let done = bare.with_cell(addr, width_of(ty), t.operand(0));
            assert(simple_step(store, t) == Flow::Next(done));
            assert(run_from(last, 1, done, rounds) == Flow::Next(done));
        },
        _ => {},
    }
}

// ---------------------------------------------------------------------------
// Positional payloads.
// ---------------------------------------------------------------------------

/// The type that a payload field is stored as.
pub open spec fn kept_as(schema: Schema, slots: Seq<FieldSlot>, i: int) -> IrType {
    if slots[i].inline {
        record_ir_type(schema.fields@[i].ty)->0
    } else {
        IrType::I32
    }
}

/// The layout keeps the fields apart, within the record; what is not inline is a
/// pointer.
pub open spec fn sound_layout(schema: Schema, layout: LayoutView) -> bool {
    &&& layout.fields.len() == schema.fields@.len()
    &&& forall|i: int|
        0 <= i < schema.fields@.len() ==> (#[trigger] layout.fields[i]).offset + width_of(
            record_ir_type(schema.fields@[i].ty)->0,
        ) <= layout.root_size && (!layout.fields[i].inline ==> width_of(
            record_ir_type(schema.fields@[i].ty)->0,
        ) == 4)
    &&& forall|i: int, j: int|
        0 <= i < schema.fields@.len() && 0 <= j < schema.fields@.len() && i != j ==> (
        #[trigger] layout.fields[i]).offset + width_of(record_ir_type(schema.fields@[i].ty)->0)
            <= (#[trigger] layout.fields[j]).offset || layout.fields[j].offset + width_of(
            record_ir_type(schema.fields@[j].ty)->0,
        ) <= layout.fields[i].offset
}

/// The values of fields are steady.
pub open spec fn steady_fields<L: RecordLowering>(low: L, rounds: nat) -> bool {
    forall|schema: Schema, i: int, value: Node, scope: Scope<'_>, at: SlotsView|
        (#[trigger] low.field_value(schema, i, value, scope, at)) matches Ok(f) ==> steady(
            f,
            at,
            rounds,
        )
}

/// The code of the values of fields comes to its end.
pub open spec fn finishing_fields<L: RecordLowering>(low: L, rounds: nat) -> bool {
    forall|schema: Schema, i: int, value: Node, scope: Scope<'_>, at: SlotsView, s: Machine|
        low.field_value(schema, i, value, scope, at) is Ok && tight(s) ==> (#[trigger] run(
            low.field_value(schema, i, value, scope, at)->Ok_0.ops,
            s,
            rounds,
        )) is Next
}

/// The value of the field is what the expression for it leaves.
pub open spec fn field_comes_from<L: RecordLowering>(
    low: L,
    schema: Schema,
    i: int,
    value: Node,
    scope: Scope<'_>,
    s: Machine,
    at: SlotsView,
    lo: int,
    hi: int,
    v: int,
    rounds: nat,
) -> bool {
    exists|slots: SlotsView, u: Machine, t: Machine|
        #![trigger low.field_value(schema, i, value, scope, slots), evaluates(
            low.field_value(schema, i, value, scope, slots)->Ok_0.ops,
            s,
            at,
            lo,
            hi,
            u,
            t,
            v,
            rounds,
        )]
        low.field_value(schema, i, value, scope, slots) is Ok && evaluates(
            low.field_value(schema, i, value, scope, slots)->Ok_0.ops,
            s,
            at,
            lo,
            hi,
            u,
            t,
            v,
            rounds,
        )
}

/// The field of the record is filled from the expression for it.
pub open spec fn field_filled<L: RecordLowering>(
    low: L,
    schema: Schema,
    offset: u32,
    i: int,
    value: Node,
    scope: Scope<'_>,
    s: Machine,
    at: SlotsView,
    base: int,
    size: int,
    end: Machine,
    rounds: nat,
) -> bool {
    exists|v: int| #[trigger]
        field_comes_from(low, schema, i, value, scope, s, at, base, base + size, v, rounds)
            && reads(
            end.mem,
            base + offset,
            width_of(record_ir_type(schema.fields@[i].ty)->0),
            v,
        )
}

proof fn lemma_payload_fields<L: RecordLowering>(
    env: RecordEnv<'_, L>,
    schema: Schema,
    layout: LayoutView,
    args: Seq<CallArg>,
    record: u32,
    scope: Scope<'_>,
    at: SlotsView,
    s: Machine,
    rounds: nat,
)
    requires
        steady_fields(*env.low, rounds),
        sound_layout(schema, layout),
        args.len() <= schema.fields@.len(),
        record < at.records,
        s.records.dom().contains(record),
        tight(s),
        s.records[record] + layout.root_size <= s.free,
    ensures
        payload_fields(env, schema, layout.fields, args, record, scope, at) matches Ok(f) ==> {
            &&& at.lets <= f.slots.lets
            &&& at.records <= f.slots.records
            &&& finishing_fields(*env.low, rounds) ==> run(f.ops, s, rounds) is Next
            &&& run(f.ops, s, rounds) matches Flow::Next(t) ==> {
                &&& t.stack == s.stack
                &&& tight(t)
                &&& undisturbed(
                    s,
                    t,
                    at,
                    s.records[record],
                    s.records[record] + layout.root_size,
                )
                &&& forall|i: int|
                    0 <= i < args.len() ==> field_filled(
                        *env.low,
                        schema,
                        (#[trigger] layout.fields[i]).offset,
                        i,
                        args[i].value,
                        scope,
                        s,
                        at,
                        s.records[record],
                        layout.root_size as int,
                        t,
                        rounds,
                    )
            }
        },
    decreases args.len(),
{
    let base = s.records[record];
    let size = layout.root_size as int;
    if let Ok(g) = payload_fields(env, schema, layout.fields, args, record, scope, at) {
        if args.len() == 0 {
            assert(run(g.ops, s, rounds) == Flow::Next(s));
        } else {
            let fewer = args.drop_last();
            let i = args.len() - 1;
            lemma_payload_fields(env, schema, layout, fewer, record, scope, at, s, rounds);
            let pre = payload_fields(env, schema, layout.fields, fewer, record, scope, at)->Ok_0;
            let f = env.low.field_value(schema, i, args[i].value, scope, pre.slots)->Ok_0;
            let ty = kept_as(schema, layout.fields, i);
            let store = field_store_op(env.in_scratch, record, layout.fields[i].offset, ty);
            assert(steady(f, pre.slots, rounds));
            assert(g.ops == (pre.ops + f.ops).push(sop(store, args[i].value.range)));
            let rest = seq![sop(store, args[i].value.range)];
            assert(g.ops =~= pre.ops + (f.ops + rest));
            lemma_run_concat(pre.ops, f.ops + rest, 0, s, rounds);
            if let Flow::Next(u) = run(pre.ops, s, rounds) {
                let spot = layout.fields[i];
                lemma_field_stored(
                    pre.ops,
                    f,
                    pre.slots,
                    store,
                    args[i].value.range,
                    s,
                    u,
                    at,
                    base,
                    base + size,
                    record,
                    spot.offset,
                    ty,
                    rounds,
                );
            }
            if let Flow::Next(end) = run(g.ops, s, rounds) {
                let u = run(pre.ops, s, rounds)->Next_0;
                let t = run(f.ops, u, rounds)->Next_0;
                let v = t.operand(0);
                assert(field_comes_from(
                    *env.low,
                    schema,
                    i,
                    args[i].value,
                    scope,
                    s,
                    at,
                    base,
                    base + size,
                    v,
                    rounds,
                ));
                assert forall|j: int| 0 <= j < args.len() implies field_filled(
                    *env.low,
                    schema,
                    (#[trigger] layout.fields[j]).offset,
                    j,
                    args[j].value,
                    scope,
                    s,
                    at,
                    base,
                    size,
                    end,
                    rounds,
                ) by {
                    if j < i {
                        assert(fewer[j] == args[j]);
                        assert(field_filled(
                            *env.low,
                            schema,
                            layout.fields[j].offset,
                            j,
                            fewer[j].value,
                            scope,
                            s,
                            at,
                            base,
                            size,
                            u,
                            rounds,
                        ));
                        let x = choose|x: int| #[trigger]
                            field_comes_from(
                                *env.low,
                                schema,
                                j,
                                args[j].value,
                                scope,
                                s,
                                at,
                                base,
                                base + size,
                                x,
                                rounds,
                            ) && reads(
                                u.mem,
                                base + layout.fields[j].offset,
                                width_of(record_ir_type(schema.fields@[j].ty)->0),
                                x,
                            );
                        let a = base + layout.fields[j].offset;
                        assert(u.mem.dom().contains(a));
                        assert(reads(
                            end.mem,
                            a,
                            width_of(record_ir_type(schema.fields@[j].ty)->0),
                            x,
                        ));
                    }
                }
            }
        }
    }
}

// ---------------------------------------------------------------------------
// Variants.
// ---------------------------------------------------------------------------

/// A variant record bears the tag, and holds the payload where a match looks for
/// it: what `payload_offset` says of the type.
pub proof fn law_variant_record_holds_payload(
    expected: TypeRepr,
    variant: Seq<char>,
    tag: u8,
    ty: TypeRepr,
    f: FragmentView,
    in_scratch: bool,
    range: TokenRange,
    at: SlotsView,
    s: Machine,
    u: Machine,
    x: int,
    rounds: nat,
)
    requires
        !(ty is Unit),
        variant_record(expected, variant, tag, Some((ty, f)), in_scratch, range, at) is Ok,
        run(f.ops, s, rounds) == Flow::Next(u),
        u.stack == s.stack.push(x),
        tight(u),
    ensures
        ({
            let g = variant_record(
                expected,
                variant,
                tag,
                Some((ty, f)),
                in_scratch,
                range,
                at,
            )->Ok_0;
            &&& run(g.ops, s, rounds) matches Flow::Next(t)
            &&& t.stack == s.stack.push(u.free)
            &&& reads(t.mem, u.free, 1, tag as int)
            &&& carries_value(t.mem, ty, u.free, x)
            &&& tight(t)
            &&& u.free <= t.free
            &&& t == (Machine { stack: t.stack, mem: t.mem, free: t.free, ..u })
            &&& forall|a: int| #[trigger]
                u.mem.dom().contains(a) ==> t.mem.dom().contains(a) && t.mem[a] == u.mem[a]
        }),
{
    reveal(record_op_step);
    law_payload_offset(ty);
    let g = variant_record(expected, variant, tag, Some((ty, f)), in_scratch, range, at)->Ok_0;
    let ir = record_ir_type(ty)->0;
    let offset = payload_offset(ty)->0;
    let (size, _) = slot_layout(ty)->0;
    let align = variant_align(expected)->Ok_0;
    let op = build_op(
        in_scratch,
        tag,
        (offset + size) as u32,
        align as u32,
        Some(offset as u32),
        Some(ir),
    );
    let bare = u.popped(1);
    assert(bare.stack =~= s.stack);
    let p = u.free;
    let t = bare.with_cell(p, 1, tag as int).with_cell(p + offset, width_of(ir), x).with_block(
        offset + size,
    ).pushed(p);
    assert(simple_step(op, u) == Flow::Next(t));
    lemma_one_more(f.ops, op, range, s, u, t, rounds);
    assert forall|a: int| #[trigger] t.mem.dom().contains(a) implies 0 < t.mem[a].width && a
        + t.mem[a].width <= t.free by {
        if a != p && a != p + offset {
            assert(u.mem.dom().contains(a));
        }
    }
    assert forall|a: int| #[trigger] u.mem.dom().contains(a) implies t.mem.dom().contains(a)
        && t.mem[a] == u.mem[a] by {}
}

/// A variant without payload is a record that bears the tag.
pub proof fn law_bare_variant_bears_its_tag(
    expected: TypeRepr,
    variant: Seq<char>,
    tag: u8,
    in_scratch: bool,
    range: TokenRange,
    at: SlotsView,
    s: Machine,
    rounds: nat,
)
    requires
        variant_record(expected, variant, tag, None, in_scratch, range, at) is Ok,
        tight(s),
    ensures
        ({
            let g = variant_record(expected, variant, tag, None, in_scratch, range, at)->Ok_0;
            &&& run(g.ops, s, rounds) matches Flow::Next(t)
            &&& t.stack == s.stack.push(s.free)
            &&& reads(t.mem, s.free, 1, tag as int)
            &&& forall|a: int| #[trigger]
                s.mem.dom().contains(a) ==> t.mem.dom().contains(a) && t.mem[a] == s.mem[a]
        }),
{
    reveal(record_op_step);
    let align = variant_align(expected)->Ok_0;
    let op = build_op(in_scratch, tag, 1, align as u32, None, None);
    let t = s.with_cell(s.free, 1, tag as int).with_block(1).pushed(s.free);
    assert(simple_step(op, s) == Flow::Next(t));
    lemma_single(op, range, s, t, rounds);
}

/// The state behind the allocation of a record.
pub open spec fn allocated(s: Machine, record: u32, size: u32) -> Machine {
    s.with_record(record, s.free).with_block(size as int)
}

/// The pointer to a record is left on the operands.
pub proof fn lemma_base_pointer(
    in_scratch: bool,
    record: u32,
    range: TokenRange,
    s: Machine,
    rounds: nat,
)
    requires
        s.records.dom().contains(record),
        s.locals.dom().contains(2),
        fits_32(s.records[record]),
    ensures
        run(base_pointer(in_scratch, record, range), s, rounds) == Flow::Next(
            s.pushed(s.records[record]),
        ),
{
    reveal(record_op_step);
    let q = s.records[record];
    if in_scratch {
        lemma_single(
            SimpleOp::PushRecordBaseAbsolute { record_local_idx: record },
            range,
            s,
            s.pushed(q),
            rounds,
        );
    } else {
        let start = s.locals[2];
        let push = SimpleOp::PushRecordBase { record_local_idx: record };
        let get = SimpleOp::LocalGet(2);
        let sum = SimpleOp::Add(IrType::I32);
        let one = seq![sop(push, range)];
        let u = s.pushed(q - start);
        lemma_single(push, range, s, u, rounds);
        lemma_one_more(one, get, range, s, u, u.pushed(start), rounds);
        lemma_popped(s, q - start, start);
        lemma_wrapped(q);
        assert(simple_step(sum, u.pushed(start)) == Flow::Next(s.pushed(q)));
        lemma_one_more(
            one.push(sop(get, range)),
            sum,
            range,
            s,
            u.pushed(start),
            s.pushed(q),
            rounds,
        );
        assert(base_as_absolute(record, range) =~= one.push(sop(get, range)).push(
            sop(sum, range),
        ));
    }
}

/// A variant with positional arguments is a record that bears the tag and points
/// at the payload record; that one holds, in the field at position `i`, the value
/// of the argument at position `i`.
pub proof fn law_tuple_variant_holds_its_arguments<L: RecordLowering>(
    env: RecordEnv<'_, L>,
    expected: TypeRepr,
    variant: Seq<char>,
    tag: u8,
    ty: TypeRepr,
    schema: Schema,
    layout: LayoutView,
    args: Seq<CallArg>,
    range: TokenRange,
    scope: Scope<'_>,
    at: SlotsView,
    s: Machine,
    rounds: nat,
)
    requires
        ty matches TypeRepr::Schema { schema: inner } && *inner == schema,
        env.low.layout(schema) == Ok::<LayoutView, ErrorView>(layout),
        sound_layout(schema, layout),
        steady_fields(*env.low, rounds),
        tight(s),
        s.locals.dom().contains(2),
        fits_32(s.free),
        at.records < u32::MAX,
        tuple_variant(env, expected, variant, tag, ty, args, range, scope, at) is Ok,
    ensures
        ({
            let g = tuple_variant(env, expected, variant, tag, ty, args, range, scope, at)->Ok_0;
            let q = s.free;
            &&& finishing_fields(*env.low, rounds) ==> run(g.ops, s, rounds) is Next
            &&& args.len() == schema.fields@.len()
            &&& run(g.ops, s, rounds) matches Flow::Next(t) ==> {
            let p = t.operand(0);
            &&& t.stack == s.stack.push(p)
            &&& reads(t.mem, p, 1, tag as int)
            &&& carries_record(t.mem, ty, p, q)
            &&& forall|i: int|
                0 <= i < args.len() ==> field_filled(
                    *env.low,
                    schema,
                    (#[trigger] layout.fields[i]).offset,
                    i,
                    args[i].value,
                    scope,
                    allocated(s, at.records, layout.root_size),
                    at.after_record(),
                    q,
                    layout.root_size as int,
                    t,
                    rounds,
                )
            }
        }),
{
    reveal(record_op_step);
    let after = at.after_record();
    let record = at.records;
    let g = tuple_variant(env, expected, variant, tag, ty, args, range, scope, at)->Ok_0;
    let body = payload_fields(env, schema, layout.fields, args, record, scope, after)->Ok_0;
    let op = alloc_op(env.in_scratch, record, layout.root_size, layout.root_align);
    let pointer = base_pointer(env.in_scratch, record, range);
    let inner = seq![sop(op, range)] + body.ops + pointer;
    let f = FragmentView { ops: inner, ty: Some(IrType::I32), slots: body.slots };
    let last = g.ops.last();
    assert(g.ops == inner.push(last));
    let s1 = allocated(s, record, layout.root_size);
    assert(simple_step(op, s) == Flow::Next(s1));
    lemma_single(op, range, s, s1, rounds);
    assert(inner =~= seq![sop(op, range)] + (body.ops + pointer));
    assert(inner.push(last) =~= inner + seq![last]);
    lemma_run_concat(inner, seq![last], 0, s, rounds);
    lemma_run_concat(seq![sop(op, range)], body.ops + pointer, 0, s, rounds);
    lemma_run_concat(body.ops, pointer, 0, s1, rounds);
    lemma_payload_fields(env, schema, layout, args, record, scope, after, s1, rounds);
    if run(body.ops, s1, rounds) is Next {
        let w = run(body.ops, s1, rounds)->Next_0;
        assert(s1.records.dom().contains(record) == w.records.dom().contains(record));
        lemma_base_pointer(env.in_scratch, record, range, w, rounds);
        let u = w.pushed(s.free);
        assert(run(inner, s, rounds) == Flow::Next(u));
        assert(tight(u));
        assert(variant_record(
            expected,
            variant,
            tag,
            Some((ty, f)),
            env.in_scratch,
            range,
            at,
        ) == Ok::<FragmentView, ErrorView>(g));
        law_variant_record_holds_payload(
            expected,
            variant,
            tag,
            ty,
            f,
            env.in_scratch,
            range,
            at,
            s,
            u,
            s.free,
            rounds,
        );
        let t = run(g.ops, s, rounds)->Next_0;
        assert forall|i: int| 0 <= i < args.len() implies field_filled(
            *env.low,
            schema,
            (#[trigger] layout.fields[i]).offset,
            i,
            args[i].value,
            scope,
            s1,
            after,
            s.free,
            layout.root_size as int,
            t,
            rounds,
        ) by {
            let size = layout.root_size as int;
            assert(field_filled(
                *env.low,
                schema,
                layout.fields[i].offset,
                i,
                args[i].value,
                scope,
                s1,
                after,
                s.free,
                size,
                w,
                rounds,
            ));
            let v = choose|v: int| #[trigger]
                field_comes_from(
                    *env.low,
                    schema,
                    i,
                    args[i].value,
                    scope,
                    s1,
                    after,
                    s.free,
                    s.free + size,
                    v,
                    rounds,
                ) && reads(
                    w.mem,
                    s.free + layout.fields[i].offset,
                    width_of(record_ir_type(schema.fields@[i].ty)->0),
                    v,
                );
            assert(u.mem.dom().contains(s.free + layout.fields[i].offset));
        }
    }
}

/// A variant written as a call of its name bears the tag that the enum declares
/// for the first variant of that name, and its payload record holds the
/// arguments in their order.
pub proof fn law_called_variant_is_the_declared_one<L: RecordLowering>(
    env: RecordEnv<'_, L>,
    expected: TypeRepr,
    variants: Seq<EnumVariant>,
    k: int,
    schema: Schema,
    layout: LayoutView,
    args: Seq<CallArg>,
    range: TokenRange,
    scope: Scope<'_>,
    at: SlotsView,
    s: Machine,
    rounds: nat,
)
    requires
        expected matches TypeRepr::Enum { variants: declared, .. } && declared@ == variants,
        0 <= k < variants.len(),
        forall|j: int| 0 <= j < k ==> (#[trigger] variants[j]).name@ != variants[k].name@,
        variants[k].payload matches Some(p) && (*p matches TypeRepr::Schema { schema: inner }
            && *inner == schema),
        env.low.layout(schema) == Ok::<LayoutView, ErrorView>(layout),
        sound_layout(schema, layout),
        steady_fields(*env.low, rounds),
        tight(s),
        s.locals.dom().contains(2),
        fits_32(s.free),
        at.records < u32::MAX,
        called_variant(env, expected, variants[k].name@, args, range, scope, at) is Ok,
    ensures
        ({
            let g = called_variant(env, expected, variants[k].name@, args, range, scope, at)->Ok_0;
            let q = s.free;
            &&& finishing_fields(*env.low, rounds) ==> run(g.ops, s, rounds) is Next
            &&& args.len() == schema.fields@.len()
            &&& run(g.ops, s, rounds) matches Flow::Next(t) ==> {
            let p = t.operand(0);
            &&& t.stack == s.stack.push(p)
            &&& reads(t.mem, p, 1, variants[k].tag as int)
            &&& carries_record(t.mem, *variants[k].payload->0, p, q)
            &&& forall|i: int|
                0 <= i < args.len() ==> field_filled(
                    *env.low,
                    schema,
                    (#[trigger] layout.fields[i]).offset,
                    i,
                    args[i].value,
                    scope,
                    allocated(s, at.records, layout.root_size),
                    at.after_record(),
                    q,
                    layout.root_size as int,
                    t,
                    rounds,
                )
            }
        }),
{
    let name = variants[k].name@;
    lemma_first_variant(variants, name, k, 0);
    law_tuple_variant_holds_its_arguments(
        env,
        expected,
        name,
        variants[k].tag,
        *variants[k].payload->0,
        schema,
        layout,
        args,
        range,
        scope,
        at,
        s,
        rounds,
    );
}

proof fn lemma_first_variant(variants: Seq<EnumVariant>, name: Seq<char>, k: int, from: int)
    requires
        0 <= from <= k < variants.len(),
        variants[k].name@ == name,
        forall|j: int| 0 <= j < k ==> (#[trigger] variants[j]).name@ != name,
    ensures
        variant_index(variants, name, from) == Some(k),
    decreases k - from,
{
    if from < k {
        assert(variants[from].name@ != name);
        lemma_first_variant(variants, name, k, from + 1);
    }
}

} // verus!

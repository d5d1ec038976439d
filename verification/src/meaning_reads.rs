//! What reading and reducing lists computes.

use vstd::prelude::*;

use crate::ast::{ClosureParam, Node, TokenRange};
use crate::fragment::{int_top, let_get, let_set, Scope, SlotsView, SubLowering};
use crate::index::{indexed, list_index, list_string_index, narrow_address, wide_address};
use crate::ir::{sop, IrType, OpView, SimpleOp, TaggedOpView};
use crate::list_calls::bound_list_reduce;
use crate::materialize::{bump_i32, element_address, payload_address};
use crate::meaning::{
    behind_block, context_below, group_straight, holds, lemma_run_concat, lemma_same_chain,
    lemma_same_less, lemma_still_holds, reads, run, run_from, same_below, step, Cell, Flow,
    Machine,
};
use crate::meaning_lists::{
    builds, claimed, element_is, equals, kept_memory, lemma_element_address, lemma_guard_32,
    lemma_mask, lemma_payload_address, lemma_set_built, limit, list_of, payload_of, solid, Claim,
};
use crate::range_loop::{block_op, exit_guard, loop_op};

verus! {

// ---------------------------------------------------------------------------
// Elements.
// ---------------------------------------------------------------------------

/// The code behind a receiver on the stack takes it and pushes the value at the
/// address that its index tells.
#[verifier::rlimit(50)]
#[verifier::spinoff_prover]
proof fn lemma_indexed<L: SubLowering>(
    ctx: Map<u32, int>,
    low: L,
    index: Node,
    wide: bool,
    load: SimpleOp,
    ty: IrType,
    range: TokenRange,
    scope: Scope<'_>,
    at: SlotsView,
    k: int,
    w: int,
    n: nat,
    s: Machine,
    rounds: nat,
)
    requires
        at.lets + 2 <= u32::MAX,
        context_below(ctx, at.lets as int),
        int_top(low.lowered(index, scope, at.after(2)), range) matches Ok(f) && builds(
            ctx,
            f.ops,
            at.lets + 2,
            equals(k),
            0,
            n,
        ),
        holds(ctx, s),
        solid(s),
        s.free <= limit(),
        s.stack.len() > 0,
        0 <= s.operand(0),
        0 <= k,
        wide ==> load == (SimpleOp::LoadI64AtAbsolute { offset: 0 }) || load == (
        SimpleOp::LoadF64AtAbsolute { offset: 0 }),
        !wide ==> load == (SimpleOp::LoadI32AtAbsolute { offset: 0 }),
        if wide {
            reads(s.mem, payload_of(s.operand(0)) + 8 * k, 8, w)
        } else {
            reads(s.mem, s.operand(0) + 4 + 4 * k, 4, w)
        },
        rounds >= n,
    ensures
        indexed(low, index, wide, load, ty, range, scope, at) matches Ok(g) && {
            &&& run(g.ops, s, rounds) matches Flow::Next(t)
            &&& t.stack == s.stack.drop_last().push(w)
            &&& same_below(s, t, at.lets as int)
            &&& solid(t)
            &&& kept_memory(s, t)
        },
{
    let base = at.lets;
    let idx = (at.lets + 1) as u32;
    let f = int_top(low.lowered(index, scope, at.after(2)), range)->Ok_0;
    let g = indexed(low, index, wide, load, ty, range, scope, at)->Ok_0;
    let v = s.operand(0);
    let addr = if wide {
        payload_of(v) + 8 * k
    } else {
        v + 4 + 4 * k
    };
    let first = seq![let_set(base, IrType::I32, range)];
    let second = f.ops + seq![let_set(idx, IrType::I32, range)];
    let address = if wide {
        wide_address(base, idx, range)
    } else {
        narrow_address(base, idx, range)
    };
    let read = seq![sop(load, range)];
    assert(g.ops =~= first + (second + (address + read)));
    let bare = Machine { stack: s.stack.drop_last(), ..s };
    assert(s == bare.pushed(v)) by {
        assert(s.stack =~= s.stack.drop_last().push(v));
    }
    let t1 = bare.with_let(base, v);
    assert(run(first, s, rounds) == Flow::Next(t1)) by {
        broadcast use group_straight;

        assert(run_from(first, 0, s, rounds) == Flow::Next(t1));
    }
    lemma_run_concat(first, second + (address + read), 0, s, rounds);
    assert(same_below(s, t1, base as int));
    lemma_still_holds(ctx, s, t1, base as int);
    assert(solid(t1));
    let t2 = lemma_set_built(
        ctx,
        f.ops,
        idx,
        IrType::I32,
        range,
        base + 2,
        equals(k),
        0,
        n,
        t1,
        rounds,
    );
    lemma_run_concat(second, address + read, 0, t1, rounds);
    assert(t1.lets.dom().contains(base) == t2.lets.dom().contains(base));
    assert(s.mem.dom().contains(addr));
    assert(t1.mem.dom().contains(addr) == t2.mem.dom().contains(addr));
    let t3 = t2.pushed(addr);
    assert(run(address, t2, rounds) == Flow::Next(t3)) by {
        if wide {
            lemma_wide_address(base, idx, range, t2, rounds);
        } else {
            lemma_narrow_address(base, idx, range, t2, rounds);
        }
    }
    lemma_run_concat(address, read, 0, t2, rounds);
    let t = t2.pushed(w);
    assert(run(read, t3, rounds) == Flow::Next(t)) by {
        broadcast use group_straight;

        assert(run_from(read, 0, t3, rounds) == Flow::Next(t));
    }
    lemma_same_less(t1, t2, base as int, idx as int);
    lemma_same_chain(s, t1, t2, base as int, base as int);
    lemma_same_chain(s, t2, t, base as int, base as int);
    assert(kept_memory(s, t)) by {
        assert forall|c: int| c < s.free implies {
            &&& #[trigger] s.mem.dom().contains(c) == t.mem.dom().contains(c)
            &&& s.mem.dom().contains(c) ==> s.mem[c] == t.mem[c]
        } by {
            assert(t1.mem.dom().contains(c) == t2.mem.dom().contains(c));
        }
    }
}

/// The address of an element of eight bytes.
proof fn lemma_wide_address(base: u32, idx: u32, range: TokenRange, s: Machine, rounds: nat)
    requires
        s.lets.dom().contains(base),
        s.lets.dom().contains(idx),
        0 <= s.lets[base],
        0 <= s.lets[idx],
        payload_of(s.lets[base]) + 8 * s.lets[idx] <= i32::MAX - 8,
    ensures
        run(wide_address(base, idx, range), s, rounds) == Flow::Next(
            s.pushed(payload_of(s.lets[base]) + 8 * s.lets[idx]),
        ),
{
    let code = wide_address(base, idx, range);
    let v = s.lets[base];
    let k = s.lets[idx];
    let t = s.pushed(payload_of(v));
    assert(run_from(code, 0, s, rounds) == run_from(code, 5, t, rounds)) by {
        broadcast use group_straight;

        lemma_mask(v + 11);
        assert(code[4].op->Simple_0 == SimpleOp::BitAnd(IrType::I32));
    }
    let u = t.pushed(k);
    assert(run_from(code, 5, t, rounds) == run_from(code, 8, t.pushed(8 * k), rounds)) by {
        broadcast use group_straight;

        assert(run_from(code, 5, t, rounds) == run_from(code, 6, u, rounds));
    }
    assert(run_from(code, 8, t.pushed(8 * k), rounds) == Flow::Next(
        s.pushed(payload_of(v) + 8 * k),
    )) by {
        broadcast use group_straight;

    }
}

/// The address of an element of four bytes.
proof fn lemma_narrow_address(base: u32, idx: u32, range: TokenRange, s: Machine, rounds: nat)
    requires
        s.lets.dom().contains(base),
        s.lets.dom().contains(idx),
        0 <= s.lets[base],
        0 <= s.lets[idx],
        s.lets[base] + 4 + 4 * s.lets[idx] <= i32::MAX,
    ensures
        run(narrow_address(base, idx, range), s, rounds) == Flow::Next(
            s.pushed(s.lets[base] + 4 + 4 * s.lets[idx]),
        ),
{
    broadcast use group_straight;

    let code = narrow_address(base, idx, range);
    assert(run(code, s, rounds) == run_from(code, 0, s, rounds));
}

/// Indexing a list of integers or floats takes the address of its record from
/// the stack and pushes the element: for a list that code has built, the value
/// of which it was built.
pub proof fn law_list_index_reads_element<L: SubLowering>(
    ctx: Map<u32, int>,
    low: L,
    index: Node,
    recv_ty: IrType,
    range: TokenRange,
    scope: Scope<'_>,
    at: SlotsView,
    len: nat,
    q: spec_fn(int) -> Claim,
    from: int,
    to: int,
    k: int,
    n: nat,
    s: Machine,
    rounds: nat,
)
    requires
        at.lets + 2 <= u32::MAX,
        context_below(ctx, at.lets as int),
        int_top(low.lowered(index, scope, at.after(2)), range) matches Ok(f) && builds(
            ctx,
            f.ops,
            at.lets + 2,
            equals(k),
            0,
            n,
        ),
        holds(ctx, s),
        solid(s),
        s.free <= limit(),
        s.stack.len() > 0,
        0 <= from,
        list_of(len, q)(s.mem, from, to, s.operand(0)),
        0 <= k < len,
        rounds >= n,
    ensures
        list_index(low, index, recv_ty, range, scope, at) matches Ok(g) && {
            &&& run(g.ops, s, rounds) matches Flow::Next(t)
            &&& t.stack.len() == s.stack.len()
            &&& t.stack.drop_last() == s.stack.drop_last()
            &&& reads(s.mem, payload_of(s.operand(0)) + 8 * k, 8, t.operand(0))
            &&& claimed(q(k), s.mem, from, to, t.operand(0))
            &&& same_below(s, t, at.lets as int)
            &&& kept_memory(s, t)
        },
{
    let v = s.operand(0);
    assert(element_is(s.mem, from, to, v, k, q(k)));
    let w = choose|w: int| #[trigger]
        reads(s.mem, payload_of(v) + 8 * k, 8, w) && claimed(q(k), s.mem, from, to, w);
    if recv_ty == IrType::ListFloat {
        let load = SimpleOp::LoadF64AtAbsolute { offset: 0 };
        lemma_indexed(
            ctx,
            low,
            index,
            true,
            load,
            IrType::F64,
            range,
            scope,
            at,
            k,
            w,
            n,
            s,
            rounds,
        );
    } else {
        let load = SimpleOp::LoadI64AtAbsolute { offset: 0 };
        lemma_indexed(
            ctx,
            low,
            index,
            true,
            load,
            IrType::I64,
            range,
            scope,
            at,
            k,
            w,
            n,
            s,
            rounds,
        );
    }
    let g = list_index(low, index, recv_ty, range, scope, at)->Ok_0;
    let t = run(g.ops, s, rounds)->Next_0;
    assert(t.stack.drop_last() =~= s.stack.drop_last());
}

/// Indexing a list of texts takes the address of its record from the stack and
/// pushes the address in the slot of the index.
pub proof fn law_string_index_reads_element<L: SubLowering>(
    ctx: Map<u32, int>,
    low: L,
    index: Node,
    range: TokenRange,
    scope: Scope<'_>,
    at: SlotsView,
    k: int,
    w: int,
    n: nat,
    s: Machine,
    rounds: nat,
)
    requires
        at.lets + 2 <= u32::MAX,
        context_below(ctx, at.lets as int),
        int_top(low.lowered(index, scope, at.after(2)), range) matches Ok(f) && builds(
            ctx,
            f.ops,
            at.lets + 2,
            equals(k),
            0,
            n,
        ),
        holds(ctx, s),
        solid(s),
        s.free <= limit(),
        s.stack.len() > 0,
        0 <= s.operand(0),
        0 <= k,
        reads(s.mem, s.operand(0) + 4 + 4 * k, 4, w),
        rounds >= n,
    ensures
        list_string_index(low, index, range, scope, at) matches Ok(g) && {
            &&& run(g.ops, s, rounds) matches Flow::Next(t)
            &&& t.stack == s.stack.drop_last().push(w)
            &&& same_below(s, t, at.lets as int)
            &&& kept_memory(s, t)
        },
{
    let load = SimpleOp::LoadI32AtAbsolute { offset: 0 };
    lemma_indexed(
        ctx,
        low,
        index,
        false,
        load,
        IrType::String,
        range,
        scope,
        at,
        k,
        w,
        n,
        s,
        rounds,
    );
}

// ---------------------------------------------------------------------------
// Reductions.
// ---------------------------------------------------------------------------

/// `h` folded over the elements at and behind `k`, in order; `None` as soon as
/// one step is.
pub open spec fn folded_over(
    h: spec_fn(int, int) -> Option<int>,
    seed: int,
    elems: Seq<int>,
    k: int,
) -> Option<int>
    decreases elems.len() - k,
{
    if k < 0 || k >= elems.len() {
        Some(seed)
    } else {
        match h(seed, elems[k]) {
            None => None,
            Some(v) => folded_over(h, v, elems, k + 1),
        }
    }
}

/// The list record at `v` holds the elements.
pub open spec fn list_holds(m: Map<int, Cell>, v: int, elems: Seq<int>) -> bool {
    &&& reads(m, v, 4, elems.len() as int)
    &&& forall|k: int|
        0 <= k < elems.len() ==> #[trigger] reads(m, payload_of(v) + 8 * k, 8, elems[k])
}

/// The code yields `h` of what is in slots `x` and `y`, or traps where that is
/// `None`, in every state in which the memory of `s0` is as it was. It may look
/// at that memory.
pub open spec fn combines_in(
    s0: Machine,
    ctx: Map<u32, int>,
    code: Seq<TaggedOpView>,
    x: u32,
    y: u32,
    base: int,
    h: spec_fn(int, int) -> Option<int>,
    n: nat,
) -> bool {
    forall|p: int, e: int, s: Machine, rounds: nat|
        #![trigger h(p, e), run(code, s, rounds)]
        holds(ctx.insert(x, p).insert(y, e), s) && solid(s) && kept_memory(s0, s) && s.free
            <= limit() && rounds >= n ==> match h(p, e) {
            None => run(code, s, rounds) == Flow::Trap,
            Some(w) => {
                &&& run(code, s, rounds) matches Flow::Next(t)
                &&& t.stack == s.stack.push(w)
                &&& same_below(s, t, base)
                &&& solid(t)
                &&& kept_memory(s, t)
                &&& t.free <= limit()
            },
        }
}

/// What runs in the loop of a reduction, behind the guard.
pub open spec fn reduce_round(
    base: u32,
    acc_ty: IrType,
    elem_ty: IrType,
    p: u32,
    code: Seq<TaggedOpView>,
    range: TokenRange,
) -> Seq<TaggedOpView> {
    let acc = (base + 4) as u32;
    element_address((base + 2) as u32, (base + 3) as u32, range) + (seq![
        sop(SimpleOp::LoadI64AtAbsolute { offset: 0 }, range),
        let_set((p + 2) as u32, IrType::I64, range),
        let_get(acc, acc_ty, range),
        let_set(p, acc_ty, range),
        let_get((p + 2) as u32, IrType::I64, range),
        let_set((p + 1) as u32, elem_ty, range),
    ] + (code + (seq![let_set(acc, acc_ty, range)] + (bump_i32((base + 3) as u32, range) + seq![
        sop(SimpleOp::Br { label_depth: 0 }, range),
    ]))))
}

/// The state of the loop of a reduction at element `k`.
pub open spec fn reducing(
    ctx: Map<u32, int>,
    s0: Machine,
    s: Machine,
    base: u32,
    v: int,
    elems: Seq<int>,
    k: int,
    acc: int,
) -> bool {
    &&& holds(ctx, s)
    &&& s.stack == s0.stack
    &&& same_below(s0, s, base as int)
    &&& s.lets.dom().contains((base + 1) as u32) && s.lets[(base + 1) as u32] == elems.len()
    &&& s.lets.dom().contains((base + 2) as u32) && s.lets[(base + 2) as u32] == payload_of(v)
    &&& s.lets.dom().contains((base + 3) as u32) && s.lets[(base + 3) as u32] == k
    &&& s.lets.dom().contains((base + 4) as u32) && s.lets[(base + 4) as u32] == acc
    &&& solid(s)
    &&& kept_memory(s0, s)
    &&& s.free <= limit()
}

/// One round of a reduction.
proof fn lemma_reduce_round(
    ctx: Map<u32, int>,
    s0: Machine,
    s: Machine,
    base: u32,
    p: u32,
    acc_ty: IrType,
    elem_ty: IrType,
    code: Seq<TaggedOpView>,
    range: TokenRange,
    v: int,
    elems: Seq<int>,
    k: int,
    acc: int,
    h: spec_fn(int, int) -> Option<int>,
    n: nat,
    rounds: nat,
) -> (next: Machine)
    requires
        base + 5 <= p,
        p + 3 <= u32::MAX,
        context_below(ctx, base as int),
        combines_in(s0, ctx, code, p, (p + 1) as u32, p + 3, h, n),
        solid(s0),
        0 <= v,
        list_holds(s0.mem, v, elems),
        reducing(ctx, s0, s, base, v, elems, k, acc),
        0 <= k < elems.len(),
        rounds >= n,
    ensures
        match h(acc, elems[k]) {
            None => run(reduce_round(base, acc_ty, elem_ty, p, code, range), s, rounds)
                == Flow::Trap,
            Some(w) => {
                &&& run(reduce_round(base, acc_ty, elem_ty, p, code, range), s, rounds)
                    == Flow::Jump(0, next)
                &&& reducing(ctx, s0, next, base, v, elems, k + 1, w)
            },
        },
{
    let payload = (base + 2) as u32;
    let i = (base + 3) as u32;
    let acc_slot = (base + 4) as u32;
    let e = (p + 1) as u32;
    let raw = (p + 2) as u32;
    let x = elems[k];
    let addr = payload_of(v) + 8 * k;
    assert(reads(s0.mem, addr, 8, x));
    assert(s0.mem.dom().contains(addr) == s.mem.dom().contains(addr));
    let address = element_address(payload, i, range);
    let copy = seq![
        sop(SimpleOp::LoadI64AtAbsolute { offset: 0 }, range),
        let_set(raw, IrType::I64, range),
        let_get(acc_slot, acc_ty, range),
        let_set(p, acc_ty, range),
        let_get(raw, IrType::I64, range),
        let_set(e, elem_ty, range),
    ];
    let store = seq![let_set(acc_slot, acc_ty, range)];
    let go = bump_i32(i, range) + seq![sop(SimpleOp::Br { label_depth: 0 }, range)];
    let whole = reduce_round(base, acc_ty, elem_ty, p, code, range);
    lemma_element_address(payload, i, range, s, rounds);
    let t1 = s.pushed(addr);
    lemma_run_concat(address, copy + (code + (store + go)), 0, s, rounds);
    let t2 = s.with_let(raw, x).with_let(p, acc).with_let(e, x);
    assert(run(copy, t1, rounds) == Flow::Next(t2)) by {
        broadcast use group_straight;

        assert(run_from(copy, 0, t1, rounds) == Flow::Next(t2));
    }
    lemma_run_concat(copy, code + (store + go), 0, t1, rounds);
    lemma_run_concat(code, store + go, 0, t2, rounds);
    let inside = ctx.insert(p, acc).insert(e, x);
    assert(holds(inside, t2)) by {
        assert forall|slot: u32| #[trigger] inside.dom().contains(slot) implies
            t2.lets.dom().contains(slot) && t2.lets[slot] == inside[slot] by {
            if slot != p && slot != e {
                assert(ctx.dom().contains(slot));
            }
        }
    }
    assert(solid(t2));
    assert(kept_memory(s0, t2)) by {
        assert forall|c: int| c < s0.free implies {
            &&& #[trigger] s0.mem.dom().contains(c) == t2.mem.dom().contains(c)
            &&& s0.mem.dom().contains(c) ==> s0.mem[c] == t2.mem[c]
        } by {
            assert(s0.mem.dom().contains(c) == s.mem.dom().contains(c));
        }
    }
    match h(acc, x) {
        None => {
            assert(run(code, t2, rounds) == Flow::Trap);
            s
        },
        Some(w) => {
            let t3 = run(code, t2, rounds)->Next_0;
            let bare = Machine { stack: s.stack, ..t3 };
            assert(t3 == bare.pushed(w));
            let t4 = bare.with_let(acc_slot, w);
            assert(run(store, t3, rounds) == Flow::Next(t4)) by {
                broadcast use group_straight;

                assert(run_from(store, 0, t3, rounds) == Flow::Next(t4));
            }
            lemma_run_concat(store, go, 0, t3, rounds);
            assert(t2.lets.dom().contains((base + 1) as u32) == t3.lets.dom().contains(
                (base + 1) as u32,
            ));
            assert(t2.lets.dom().contains(payload) == t3.lets.dom().contains(payload));
            assert(t2.lets.dom().contains(i) == t3.lets.dom().contains(i));
            let next = t4.with_let(i, k + 1);
            assert(elems.len() <= i32::MAX) by {
                let high = payload_of(v) + 8 * (elems.len() - 1);
                assert(reads(s0.mem, high, 8, elems[elems.len() - 1]));
            }
            assert(run(go, t4, rounds) == Flow::Jump(0, next)) by {
                broadcast use group_straight;

                assert(go.len() == 5);
                assert(run_from(go, 0, t4, rounds) == Flow::Jump(0, next));
            }
            assert(same_below(s, next, base as int)) by {
                assert forall|slot: u32| slot < base implies (
                #[trigger] s.lets.dom().contains(slot) == next.lets.dom().contains(slot)
                    && s.lets[slot] == next.lets[slot]) by {
                    assert(t2.lets.dom().contains(slot) == t3.lets.dom().contains(slot));
                }
            }
            lemma_same_chain(s0, s, next, base as int, base as int);
            lemma_still_holds(ctx, s, next, base as int);
            assert(kept_memory(s0, next)) by {
                assert forall|c: int| c < s0.free implies {
                    &&& #[trigger] s0.mem.dom().contains(c) == next.mem.dom().contains(c)
                    &&& s0.mem.dom().contains(c) ==> s0.mem[c] == next.mem[c]
                } by {
                    assert(s0.mem.dom().contains(c) == t2.mem.dom().contains(c));
                    assert(t2.mem.dom().contains(c) == t3.mem.dom().contains(c));
                }
            }
            next
        },
    }
}

/// The loop of a reduction folds the elements that are left.
proof fn lemma_reduce_loop(
    ctx: Map<u32, int>,
    s0: Machine,
    s: Machine,
    base: u32,
    p: u32,
    acc_ty: IrType,
    elem_ty: IrType,
    code: Seq<TaggedOpView>,
    range: TokenRange,
    v: int,
    elems: Seq<int>,
    k: int,
    acc: int,
    h: spec_fn(int, int) -> Option<int>,
    n: nat,
    rounds: nat,
) -> (end: Machine)
    requires
        base + 5 <= p,
        p + 3 <= u32::MAX,
        context_below(ctx, base as int),
        combines_in(s0, ctx, code, p, (p + 1) as u32, p + 3, h, n),
        solid(s0),
        0 <= v,
        list_holds(s0.mem, v, elems),
        reducing(ctx, s0, s, base, v, elems, k, acc),
        0 <= k <= elems.len(),
        rounds > n + elems.len() - k,
    ensures
        ({
            let body = exit_guard((base + 3) as u32, (base + 1) as u32, IrType::I32, 1, range)
                + reduce_round(base, acc_ty, elem_ty, p, code, range);
            let whole = TaggedOpView { op: OpView::Loop { result_ty: None, body }, range };
            match folded_over(h, acc, elems, k) {
                None => step(whole, s, rounds) == Flow::Trap,
                Some(w) => {
                    &&& step(whole, s, rounds) == Flow::Jump(0, end)
                    &&& reducing(ctx, s0, end, base, v, elems, elems.len() as int, w)
                },
            }
        }),
    decreases elems.len() - k,
{
    let rest = reduce_round(base, acc_ty, elem_ty, p, code, range);
    let body = exit_guard((base + 3) as u32, (base + 1) as u32, IrType::I32, 1, range) + rest;
    let whole = TaggedOpView { op: OpView::Loop { result_ty: None, body }, range };
    let left = (rounds - 1) as nat;
    lemma_guard_32((base + 3) as u32, (base + 1) as u32, rest, range, s, left);
    if k < elems.len() {
        let next = lemma_reduce_round(
            ctx,
            s0,
            s,
            base,
            p,
            acc_ty,
            elem_ty,
            code,
            range,
            v,
            elems,
            k,
            acc,
            h,
            n,
            left,
        );
        match h(acc, elems[k]) {
            None => {
                assert(run(body, s, left) == Flow::Trap);
                s
            },
            Some(w) => {
                assert(run(body, s, left) == Flow::Jump(0, next));
                let end = lemma_reduce_loop(
                    ctx,
                    s0,
                    next,
                    base,
                    p,
                    acc_ty,
                    elem_ty,
                    code,
                    range,
                    v,
                    elems,
                    k + 1,
                    w,
                    h,
                    n,
                    left,
                );
                assert(step(whole, s, rounds) == step(whole, next, left));
                end
            },
        }
    } else {
        assert(run(body, s, left) == Flow::Jump(1, s));
        s
    }
}

/// Reducing a bound list pushes the fold of its body over the elements of the
/// record, in order, from the initial value on; it traps where a step does.
pub proof fn law_list_reduction_folds<L: SubLowering>(
    ctx: Map<u32, int>,
    low: L,
    list: u32,
    init: Node,
    params: Seq<ClosureParam>,
    body: Node,
    range: TokenRange,
    scope: Scope<'_>,
    at: SlotsView,
    elems: Seq<int>,
    z: int,
    h: spec_fn(int, int) -> Option<int>,
    n: nat,
    s: Machine,
    rounds: nat,
)
    requires
        at.lets + 5 <= u32::MAX,
        context_below(ctx, at.lets as int),
        ctx.dom().contains(list),
        holds(ctx, s),
        solid(s),
        s.free <= limit(),
        0 <= ctx[list],
        list_holds(s.mem, ctx[list], elems),
        bound_list_reduce(low, list, init, params, body, range, scope, at) is Ok,
        low.lowered(init, scope, at.after(5)) matches Ok(seed) && {
            let acc_ty = seed.ty->0;
            let p = seed.slots.lets;
            &&& builds(ctx, seed.ops, at.lets + 5, equals(z), 0, n)
            &&& at.lets + 5 <= p
            &&& p + 3 <= u32::MAX
            &&& low.lowered(
                body,
                scope.with(params[0].name, p, acc_ty).with(
                    params[1].name,
                    (p + 1) as u32,
                    reduced_type(low, params, body),
                ),
                seed.slots.after(3),
            ) matches Ok(f)
            &&& combines_in(s, ctx, f.ops, p, (p + 1) as u32, p + 3, h, n)
        },
        rounds > n + elems.len(),
    ensures
        bound_list_reduce(low, list, init, params, body, range, scope, at) matches Ok(g)
            && match folded_over(h, z, elems, 0) {
            None => run(g.ops, s, rounds) == Flow::Trap,
            Some(w) => {
                &&& run(g.ops, s, rounds) matches Flow::Next(t)
                &&& t.stack == s.stack.push(w)
                &&& same_below(s, t, at.lets as int)
                &&& solid(t)
                &&& kept_memory(s, t)
            },
        },
{
    let base = at.lets;
    let count = (base + 1) as u32;
    let payload = (base + 2) as u32;
    let i = (base + 3) as u32;
    let acc = (base + 4) as u32;
    let v = ctx[list];
    let seed = low.lowered(init, scope, at.after(5))->Ok_0;
    let acc_ty = seed.ty->0;
    let elem_ty = reduced_type(low, params, body);
    let p = seed.slots.lets;
    let inner = scope.with(params[0].name, p, acc_ty).with(
        params[1].name,
        (p + 1) as u32,
        elem_ty,
    );
    let f = low.lowered(body, inner, seed.slots.after(3))->Ok_0;
    let g = bound_list_reduce(low, list, init, params, body, range, scope, at)->Ok_0;
    let rest = reduce_round(base, acc_ty, elem_ty, p, f.ops, range);
    let looped = exit_guard(i, count, IrType::I32, 1, range) + rest;
    let open = seq![
        let_get(list, IrType::ListInt, range),
        let_set(base, IrType::ListInt, range),
        let_get(base, IrType::ListInt, range),
        sop(SimpleOp::LoadI32AtAbsolute { offset: 0 }, range),
        let_set(count, IrType::I32, range),
    ];
    let address = payload_address(base, IrType::ListInt, payload, range);
    let seeded = seed.ops + seq![let_set(acc, acc_ty, range)];
    let zero = seq![sop(SimpleOp::ConstI32(0), range), let_set(i, IrType::I32, range)];
    let tail = seq![loop_op(looped, range), let_get(acc, acc_ty, range)];
    assert(((exit_guard(i, count, IrType::I32, 1, range) + element_address(
        payload,
        i,
        range,
    )).push(sop(SimpleOp::LoadI64AtAbsolute { offset: 0 }, range)).push(
        let_set((p + 2) as u32, IrType::I64, range),
    ).push(let_get(acc, acc_ty, range)).push(let_set(p, acc_ty, range)).push(
        let_get((p + 2) as u32, IrType::I64, range),
    ).push(let_set((p + 1) as u32, elem_ty, range)) + f.ops).push(let_set(acc, acc_ty, range))
        + bump_i32(i, range) + seq![sop(SimpleOp::Br { label_depth: 0 }, range)] =~= looped);
    assert(g.ops =~= open + (address + (seeded + (zero + tail))));
    assert(reads(s.mem, v, 4, elems.len() as int));
    let t1 = s.with_let(base, v).with_let(count, elems.len() as int);
    assert(run(open, s, rounds) == Flow::Next(t1)) by {
        broadcast use group_straight;

        assert(run_from(open, 0, s, rounds) == Flow::Next(t1));
    }
    lemma_run_concat(open, address + (seeded + (zero + tail)), 0, s, rounds);
    lemma_payload_address(base, IrType::ListInt, payload, range, t1, rounds);
    lemma_run_concat(address, seeded + (zero + tail), 0, t1, rounds);
    let t2 = t1.with_let(payload, payload_of(v));
    assert(same_below(s, t2, base as int));
    lemma_still_holds(ctx, s, t2, base as int);
    assert(solid(t2));
    let t3 = lemma_set_built(
        ctx,
        seed.ops,
        acc,
        acc_ty,
        range,
        base + 5,
        equals(z),
        0,
        n,
        t2,
        rounds,
    );
    lemma_run_concat(seeded, zero + tail, 0, t2, rounds);
    assert(t2.lets.dom().contains(count) == t3.lets.dom().contains(count));
    assert(t2.lets.dom().contains(payload) == t3.lets.dom().contains(payload));
    let t4 = t3.with_let(i, 0);
    assert(run(zero, t3, rounds) == Flow::Next(t4)) by {
        broadcast use group_straight;

        assert(run_from(zero, 0, t3, rounds) == Flow::Next(t4));
    }
    lemma_run_concat(zero, tail, 0, t3, rounds);
    lemma_same_less(t2, t3, base as int, acc as int);
    assert(same_below(t3, t4, base as int));
    lemma_same_chain(s, t2, t3, base as int, base as int);
    lemma_same_chain(s, t3, t4, base as int, base as int);
    lemma_still_holds(ctx, s, t4, base as int);
    assert(kept_memory(s, t4)) by {
        assert forall|c: int| c < s.free implies {
            &&& #[trigger] s.mem.dom().contains(c) == t4.mem.dom().contains(c)
            &&& s.mem.dom().contains(c) ==> s.mem[c] == t4.mem[c]
        } by {
            assert(t2.mem.dom().contains(c) == t3.mem.dom().contains(c));
        }
    }
    let end = lemma_reduce_loop(
        ctx,
        s,
        t4,
        base,
        p,
        acc_ty,
        elem_ty,
        f.ops,
        range,
        v,
        elems,
        0,
        z,
        h,
        n,
        rounds,
    );
    let whole = TaggedOpView { op: OpView::Loop { result_ty: None, body: looped }, range };
    let outer = seq![whole];
    assert(run_from(outer, 0, t4, rounds) == step(whole, t4, rounds));
    assert(step(block_op(outer, range), t4, rounds) == behind_block(
        run_from(outer, 0, t4, rounds),
    ));
    if let Some(w) = folded_over(h, z, elems, 0) {
        assert(step(tail[0], t4, rounds) == Flow::Next(end));
        assert(run_from(tail, 0, t4, rounds) == run_from(tail, 1, end, rounds));
        let t = end.pushed(w);
        assert(run_from(tail, 1, end, rounds) == Flow::Next(t)) by {
            broadcast use group_straight;

        }
        assert(same_below(end, t, base as int));
        lemma_same_chain(s, end, t, base as int, base as int);
    } else {
        assert(step(tail[0], t4, rounds) == Flow::Trap);
    }
}

/// The type under which an element of a reduced list is bound.
pub open spec fn reduced_type<L: SubLowering>(
    low: L,
    params: Seq<ClosureParam>,
    body: Node,
) -> IrType {
    if low.list_use(params[1].name@, *body.expr) {
        IrType::ListInt
    } else {
        IrType::I64
    }
}

} // verus!

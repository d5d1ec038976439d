//! What building a list leaves in memory.

use vstd::prelude::*;

use crate::ast::{CallArg, Expr, Node, TokenRange};
use crate::chain::{bare_range, single_map};
use crate::error::ErrorView;
use crate::fragment::{let_get, let_set, FragmentView, Scope, SlotsView, SubLowering};
use crate::ir::{sop, IrType, OpView, SimpleOp, TaggedOpView};
use crate::materialize::{
    alloc_list, bump_i32, cell_value, clamp_span, element_address, element_stores, element_value,
    init_cursor, is_list_value, list_prologue, list_value, literal_header, literal_list,
    mapped_list, payload_address, range_list, store_and_advance, LiteralKind,
};
use crate::meaning::{
    behind_block, context_below, fits, group_straight, holds, lemma_run_concat, lemma_same_chain,
    lemma_same_less, lemma_still_holds, reads, run, run_from, same_below, step, truth, Cell, Flow,
    Machine,
};
use crate::meaning_pipeline::span;
use crate::range_loop::{block_op, end_value, exit_guard, loop_op, start_value, step_and_loop};

verus! {

/// The address of the first element of the list record at `base`.
pub open spec fn payload_of(base: int) -> int {
    (base + 11) / 8 * 8
}

/// The mask rounds down to a multiple of eight.
pub proof fn lemma_mask(x: int)
    requires
        0 <= x <= i32::MAX,
    ensures
        ((x as i32) & (-8i32)) as int == x / 8 * 8,
{
    let v = x as i32;
    assert((v & (-8i32)) == v - v % 8 && 0 <= v % 8 && v % 8 < 8) by (bit_vector)
        requires
            0 <= v,
    ;
}

/// The address of the elements goes into its slot.
pub proof fn lemma_payload_address(
    base: u32,
    ty: IrType,
    target: u32,
    range: TokenRange,
    s: Machine,
    rounds: nat,
)
    requires
        s.lets.dom().contains(base),
        0 <= s.lets[base],
        s.lets[base] + 11 <= i32::MAX,
    ensures
        run(payload_address(base, ty, target, range), s, rounds) == Flow::Next(
            s.with_let(target, payload_of(s.lets[base])),
        ),
{
    broadcast use group_straight;

    lemma_mask(s.lets[base] + 11);
    let code = payload_address(base, ty, target, range);
    assert(run(code, s, rounds) == run_from(code, 0, s, rounds));
}

/// The address of an element is pushed.
pub proof fn lemma_element_address(
    payload: u32,
    i: u32,
    range: TokenRange,
    s: Machine,
    rounds: nat,
)
    requires
        s.lets.dom().contains(payload),
        s.lets.dom().contains(i),
        0 <= s.lets[payload],
        0 <= s.lets[i],
        s.lets[payload] + s.lets[i] * 8 <= i32::MAX,
    ensures
        run(element_address(payload, i, range), s, rounds) == Flow::Next(
            s.pushed(s.lets[payload] + s.lets[i] * 8),
        ),
{
    broadcast use group_straight;

    let code = element_address(payload, i, range);
    assert(run(code, s, rounds) == run_from(code, 0, s, rounds));
}

// ---------------------------------------------------------------------------
// Memory that is handed out from the bottom up.
// ---------------------------------------------------------------------------

/// Nothing is stored outside of what has been handed out, of which there are
/// whole words of eight bytes.
pub open spec fn solid(s: Machine) -> bool {
    &&& 0 <= s.free
    &&& s.free % 8 == 0
    &&& forall|a: int| #[trigger]
        s.mem.dom().contains(a) ==> 0 < s.mem[a].width && a + s.mem[a].width <= s.free
}

/// The memories hold the same from one address up to another.
pub open spec fn same_between(m: Map<int, Cell>, w: Map<int, Cell>, from: int, to: int) -> bool {
    forall|a: int|
        from <= a < to ==> {
            &&& #[trigger] m.dom().contains(a) == w.dom().contains(a)
            &&& m.dom().contains(a) ==> m[a] == w[a]
        }
}

/// What had been handed out is as it was.
pub open spec fn kept_memory(s: Machine, t: Machine) -> bool {
    s.free <= t.free && forall|a: int|
        a < s.free ==> {
            &&& #[trigger] s.mem.dom().contains(a) == t.mem.dom().contains(a)
            &&& s.mem.dom().contains(a) ==> s.mem[a] == t.mem[a]
        }
}

/// How far memory goes.
pub open spec fn limit() -> int {
    i32::MAX - 16
}

/// What is asked of a value in memory: the memory, where the part of it begins
/// and ends that may be looked at, and the value.
pub type Claim = spec_fn(Map<int, Cell>, int, int, int) -> bool;

/// The claim looks at no other part of the memory.
pub open spec fn local(q: Claim) -> bool {
    forall|m: Map<int, Cell>, w: Map<int, Cell>, from: int, to: int, v: int|
        same_between(m, w, from, to) && #[trigger] q(m, from, to, v) ==> #[trigger] q(
            w,
            from,
            to,
            v,
        )
}

/// The code pushes a value of which `q` holds in the memory that was handed out
/// meanwhile, at most `need` bytes. Slots below `base` stay, and so does the
/// memory that had been handed out. Its loops go round at most `n` times.
pub open spec fn builds(
    ctx: Map<u32, int>,
    code: Seq<TaggedOpView>,
    base: int,
    q: Claim,
    need: nat,
    n: nat,
) -> bool {
    forall|s: Machine, rounds: nat|
        holds(ctx, s) && solid(s) && s.free + need <= limit() && rounds >= n ==> {
            &&& #[trigger] run(code, s, rounds) matches Flow::Next(t)
            &&& t.stack.len() == s.stack.len() + 1
            &&& t.stack == s.stack.push(t.operand(0))
            &&& same_below(s, t, base)
            &&& solid(t)
            &&& kept_memory(s, t)
            &&& t.free <= s.free + need
            &&& q(t.mem, s.free, t.free, t.operand(0))
        }
}

/// The value is `x`.
pub open spec fn equals(x: int) -> Claim {
    |m: Map<int, Cell>, from: int, to: int, v: int| v == x
}

/// The claim holds of the value in some part of the memory between two addresses.
pub open spec fn claimed(q: Claim, m: Map<int, Cell>, from: int, to: int, v: int) -> bool {
    exists|f: int, t: int| from <= f && t <= to && #[trigger] q(m, f, t, v)
}

/// Element `k` of the list record at `v` is stored, and `q` holds of it.
pub open spec fn element_is(
    m: Map<int, Cell>,
    from: int,
    to: int,
    v: int,
    k: int,
    q: Claim,
) -> bool {
    exists|w: int| #[trigger] reads(m, payload_of(v) + 8 * k, 8, w) && claimed(q, m, from, to, w)
}

/// The value is the address of a list record with `len` elements: its length
/// stands at its head, and `q(k)` holds of element `k`.
pub open spec fn list_of(len: nat, q: spec_fn(int) -> Claim) -> Claim {
    |m: Map<int, Cell>, from: int, to: int, v: int|
        {
            &&& from <= v
            &&& v % 8 == 0
            &&& v + 8 + 8 * len <= to
            &&& reads(m, v, 4, len as int)
            &&& forall|k: int| 0 <= k < len ==> #[trigger] element_is(m, from, to, v, k, q(k))
        }
}

/// A claim that holds in a part of the memory holds in a larger one, and after
/// changes elsewhere.
proof fn lemma_claimed(
    q: Claim,
    m: Map<int, Cell>,
    w: Map<int, Cell>,
    from: int,
    to: int,
    from2: int,
    to2: int,
    v: int,
)
    requires
        local(q),
        claimed(q, m, from, to, v),
        from2 <= from,
        to <= to2,
        same_between(m, w, from, to),
    ensures
        claimed(q, w, from2, to2, v),
{
    let (f, t) = choose|f: int, t: int| from <= f && t <= to && #[trigger] q(m, f, t, v);
    assert(same_between(m, w, f, t));
    assert(q(w, f, t, v));
}

/// Claims on lists look at no other part of the memory, where those on their
/// elements do not: a list can be an element of a list.
pub proof fn law_list_claim_is_local(len: nat, q: spec_fn(int) -> Claim)
    requires
        forall|k: int| 0 <= k < len ==> local(#[trigger] q(k)),
    ensures
        local(list_of(len, q)),
{
    assert forall|m: Map<int, Cell>, w: Map<int, Cell>, from: int, to: int, v: int|
        same_between(m, w, from, to) && #[trigger] list_of(len, q)(m, from, to, v) implies #[trigger]
        list_of(len, q)(w, from, to, v) by {
        assert(m.dom().contains(v) == w.dom().contains(v));
        assert forall|k: int| 0 <= k < len implies #[trigger] element_is(
            w,
            from,
            to,
            v,
            k,
            q(k),
        ) by {
            assert(element_is(m, from, to, v, k, q(k)));
            let x = choose|x: int| #[trigger]
                reads(m, payload_of(v) + 8 * k, 8, x) && claimed(q(k), m, from, to, x);
            let a = payload_of(v) + 8 * k;
            assert(m.dom().contains(a) == w.dom().contains(a));
            assert(reads(w, a, 8, x));
            assert(local(q(k)));
            lemma_claimed(q(k), m, w, from, to, from, to, x);
        }
    }
}

// ---------------------------------------------------------------------------
// Building lists.
// ---------------------------------------------------------------------------

/// The positive part of the span goes into the slot of the count.
proof fn lemma_clamp_span(span: u32, count: u32, range: TokenRange, s: Machine, rounds: nat)
    requires
        s.lets.dom().contains(span),
    ensures
        run(clamp_span(span, count, range), s, rounds) == Flow::Next(
            s.with_let(
                count,
                if s.lets[span] > 0 {
                    s.lets[span]
                } else {
                    0
                },
            ),
        ),
{
    broadcast use group_straight;

    let code = clamp_span(span, count, range);
    let x = s.lets[span];
    let then_body = seq![let_get(span, IrType::I64, range)];
    let else_body = seq![sop(SimpleOp::ConstI64(0), range)];
    let branch = code[3];
    let t = s.pushed(truth(x > 0));
    assert(run(code, s, rounds) == run_from(code, 3, t, rounds));
    assert(run_from(then_body, 0, s, rounds) == Flow::Next(s.pushed(x)));
    assert(run_from(else_body, 0, s, rounds) == Flow::Next(s.pushed(0)));
    assert(step(branch, t, rounds) == if x > 0 {
        behind_block(run_from(then_body, 0, t.popped(1), rounds))
    } else {
        behind_block(run_from(else_body, 0, t.popped(1), rounds))
    });
    let v = if x > 0 {
        x
    } else {
        0
    };
    assert(step(branch, t, rounds) == Flow::Next(s.pushed(v)));
    assert(run_from(code, 3, t, rounds) == run_from(code, 4, s.pushed(v), rounds));
}

/// The record is handed out, and its length is stored.
proof fn lemma_alloc_list(count: u32, base: u32, range: TokenRange, s: Machine, rounds: nat)
    requires
        s.lets.dom().contains(count),
        count != base,
        0 <= s.lets[count],
        8 + 8 * s.lets[count] <= i32::MAX,
    ensures
        run(alloc_list(count, base, range), s, rounds) == Flow::Next(
            s.with_block(8 + 8 * s.lets[count]).with_let(base, s.free).with_cell(
                s.free,
                4,
                s.lets[count],
            ),
        ),
{
    broadcast use group_straight;

    let code = alloc_list(count, base, range);
    let len = s.lets[count];
    assert(run(code, s, rounds) == run_from(code, 0, s, rounds));
    assert(len * 8 == 8 * len);
    let t = s.pushed(8 + len * 8);
    assert(run_from(code, 0, s, rounds) == run_from(code, 5, t, rounds));
    assert(t.popped(1) == s);
    let u = s.pushed(s.free).with_block(8 + 8 * len);
    assert(u == s.with_block(8 + 8 * len).pushed(s.free));
    assert(run_from(code, 5, t, rounds) == run_from(code, 6, u, rounds));
}

/// The cursor stands at the first element.
proof fn lemma_init_cursor(
    start: u32,
    i: u32,
    elem: u32,
    range: TokenRange,
    s: Machine,
    rounds: nat,
)
    requires
        s.lets.dom().contains(start),
        i != start,
    ensures
        run(init_cursor(start, i, elem, range), s, rounds) == Flow::Next(
            s.with_let(i, 0).with_let(elem, s.lets[start]),
        ),
{
    broadcast use group_straight;

    let code = init_cursor(start, i, elem, range);
    assert(run(code, s, rounds) == run_from(code, 0, s, rounds));
}

/// The guard of a loop with a 32-bit counter.
pub proof fn lemma_guard_32(
    i: u32,
    count: u32,
    rest: Seq<TaggedOpView>,
    range: TokenRange,
    s: Machine,
    rounds: nat,
)
    requires
        s.lets.dom().contains(i),
        s.lets.dom().contains(count),
    ensures
        run(exit_guard(i, count, IrType::I32, 1, range) + rest, s, rounds) == if s.lets[i]
            >= s.lets[count] {
            Flow::Jump(1, s)
        } else {
            run(rest, s, rounds)
        },
{
    broadcast use group_straight;

    let guard = exit_guard(i, count, IrType::I32, 1, range);
    assert(run(guard, s, rounds) == run_from(guard, 0, s, rounds));
    lemma_run_concat(guard, rest, 0, s, rounds);
}

/// The value is stored, and the cursor goes on to the next element.
proof fn lemma_store_and_advance(
    payload: u32,
    i: u32,
    elem: u32,
    val: u32,
    range: TokenRange,
    s: Machine,
    rounds: nat,
)
    requires
        s.lets.dom().contains(payload),
        s.lets.dom().contains(i),
        s.lets.dom().contains(elem),
        s.lets.dom().contains(val),
        i != elem,
        0 <= s.lets[payload],
        0 <= s.lets[i] < i32::MAX,
        s.lets[payload] + s.lets[i] * 8 <= i32::MAX,
        fits(s.lets[elem] + 1),
    ensures
        run(store_and_advance(payload, i, elem, val, range), s, rounds) == Flow::Jump(
            0,
            s.with_cell(s.lets[payload] + s.lets[i] * 8, 8, s.lets[val]).with_let(
                i,
                s.lets[i] + 1,
            ).with_let(elem, s.lets[elem] + 1),
        ),
{
    broadcast use group_straight;

    let addr = s.lets[payload] + s.lets[i] * 8;
    let address = element_address(payload, i, range);
    let store = seq![
        let_get(val, IrType::I64, range),
        sop(SimpleOp::StoreI64AtAbsolute { offset: 0 }, range),
    ];
    let bump = bump_i32(i, range);
    let go = step_and_loop(elem, range);
    let code = store_and_advance(payload, i, elem, val, range);
    assert(code =~= address + (store + (bump + go)));
    lemma_element_address(payload, i, range, s, rounds);
    lemma_run_concat(address, store + (bump + go), 0, s, rounds);
    let t = s.pushed(addr);
    lemma_run_concat(store, bump + go, 0, t, rounds);
    let u = s.with_cell(addr, 8, s.lets[val]);
    assert(run_from(store, 0, t, rounds) == Flow::Next(u)) by {
        let loaded = t.pushed(s.lets[val]);
        assert(run_from(store, 0, t, rounds) == run_from(store, 1, loaded, rounds));
        assert(loaded.popped(2) == s);
    }
    lemma_run_concat(bump, go, 0, u, rounds);
    let w = u.with_let(i, s.lets[i] + 1);
    assert(run_from(bump, 0, u, rounds) == Flow::Next(w));
    assert(run_from(go, 0, w, rounds) == Flow::Jump(0, w.with_let(elem, s.lets[elem] + 1)));
}

/// The code of one round leaves in slot `val` the value of the element in slot
/// `base + 6`, of which `q` holds.
pub open spec fn makes_element(
    ctx: Map<u32, int>,
    code: Seq<TaggedOpView>,
    base: u32,
    val: u32,
    a: int,
    len: nat,
    q: spec_fn(int) -> Claim,
    need: nat,
    n: nat,
) -> bool {
    let elem = (base + 6) as u32;
    forall|s: Machine, rounds: nat|
        holds(ctx, s) && solid(s) && s.free + need <= limit() && rounds >= n
            && s.lets.dom().contains(elem) && a <= s.lets[elem] < a + len ==> {
            &&& #[trigger] run(code, s, rounds) matches Flow::Next(t)
            &&& t.stack == s.stack
            &&& same_below(s, t, base + 7)
            &&& solid(t)
            &&& kept_memory(s, t)
            &&& t.free <= s.free + need
            &&& t.lets.dom().contains(val)
            &&& q(s.lets[elem])(t.mem, s.free, t.free, t.lets[val])
        }
}

/// The state of a fill loop behind `k` elements; `s0` is the state before the
/// record was handed out.
pub open spec fn filling(
    ctx: Map<u32, int>,
    s0: Machine,
    s: Machine,
    base: u32,
    a: int,
    len: nat,
    k: nat,
    q: spec_fn(int) -> Claim,
    need: nat,
) -> bool {
    let r = s0.free;
    let inner = r + 8 + 8 * len;
    &&& holds(ctx, s)
    &&& s.stack == s0.stack
    &&& same_below(s0, s, base as int)
    &&& s.lets.dom().contains((base + 2) as u32) && s.lets[(base + 2) as u32] == len
    &&& s.lets.dom().contains((base + 3) as u32) && s.lets[(base + 3) as u32] == r
    &&& s.lets.dom().contains((base + 4) as u32) && s.lets[(base + 4) as u32] == payload_of(r)
    &&& s.lets.dom().contains((base + 5) as u32) && s.lets[(base + 5) as u32] == k
    &&& s.lets.dom().contains((base + 6) as u32) && s.lets[(base + 6) as u32] == a + k
    &&& solid(s)
    &&& inner <= s.free
    &&& s.free <= inner + k * need
    &&& inner + len * need <= limit()
    &&& kept_memory(s0, s)
    &&& reads(s.mem, r, 4, len as int)
    &&& forall|j: int|
        0 <= j < k ==> #[trigger] element_is(s.mem, inner, s.free, r, j, q(a + j))
}

/// An element stays where nothing that it is made of changes.
proof fn lemma_element_stays(
    m: Map<int, Cell>,
    w: Map<int, Cell>,
    from: int,
    to: int,
    from2: int,
    to2: int,
    v: int,
    k: int,
    q: Claim,
)
    requires
        local(q),
        element_is(m, from, to, v, k, q),
        same_between(m, w, from, to),
        from2 <= from,
        to <= to2,
        m.dom().contains(payload_of(v) + 8 * k) ==> w.dom().contains(payload_of(v) + 8 * k)
            && m[payload_of(v) + 8 * k] == w[payload_of(v) + 8 * k],
    ensures
        element_is(w, from2, to2, v, k, q),
{
    let x = choose|x: int| #[trigger]
        reads(m, payload_of(v) + 8 * k, 8, x) && claimed(q, m, from, to, x);
    lemma_claimed(q, m, w, from, to, from2, to2, x);
    assert(reads(w, payload_of(v) + 8 * k, 8, x));
}

/// One round adds one element.
proof fn lemma_fill_round(
    ctx: Map<u32, int>,
    code: Seq<TaggedOpView>,
    s0: Machine,
    s: Machine,
    base: u32,
    val: u32,
    a: int,
    len: nat,
    k: nat,
    q: spec_fn(int) -> Claim,
    need: nat,
    n: nat,
    range: TokenRange,
    rounds: nat,
) -> (next: Machine)
    requires
        base + 8 <= u32::MAX,
        context_below(ctx, base as int),
        solid(s0),
        forall|x: int| a <= x < a + len ==> local(#[trigger] q(x)),
        makes_element(ctx, code, base, val, a, len, q, need, n),
        filling(ctx, s0, s, base, a, len, k, q, need),
        k < len,
        fits(a + len),
        fits(a),
        rounds >= n,
    ensures
        filling(ctx, s0, next, base, a, len, k + 1, q, need),
        run(
            code + store_and_advance(
                (base + 4) as u32,
                (base + 5) as u32,
                (base + 6) as u32,
                val,
                range,
            ),
            s,
            rounds,
        ) == Flow::Jump(0, next),
{
    let r = s0.free;
    let inner = r + 8 + 8 * len;
    let payload = (base + 4) as u32;
    let i = (base + 5) as u32;
    let elem = (base + 6) as u32;
    let last = store_and_advance(payload, i, elem, val, range);
    assert(k * need + need == (k + 1) * need) by (nonlinear_arith);
    assert((k + 1) * need <= len * need) by (nonlinear_arith)
        requires
            k < len,
    ;
    lemma_run_concat(code, last, 0, s, rounds);
    let t = run(code, s, rounds)->Next_0;
    assert(s.lets.dom().contains(payload) == t.lets.dom().contains(payload));
    assert(s.lets.dom().contains(i) == t.lets.dom().contains(i));
    assert(s.lets.dom().contains(elem) == t.lets.dom().contains(elem));
    assert(s.lets.dom().contains((base + 2) as u32) == t.lets.dom().contains((base + 2) as u32));
    assert(s.lets.dom().contains((base + 3) as u32) == t.lets.dom().contains((base + 3) as u32));
    let addr = payload_of(r) + 8 * k;
    assert(payload_of(r) == r + 8);
    assert(t.lets[payload] + t.lets[i] * 8 == addr);
    lemma_store_and_advance(payload, i, elem, val, range, t, rounds);
    let v = t.lets[val];
    let u = t.with_cell(addr, 8, v);
    let next = u.with_let(i, t.lets[i] + 1).with_let(elem, t.lets[elem] + 1);
    assert(solid(next)) by {
        assert forall|b: int| #[trigger] next.mem.dom().contains(b) implies 0 < next.mem[b].width
            && b + next.mem[b].width <= next.free by {
            if b != addr {
                assert(t.mem.dom().contains(b));
            }
        }
    }
    assert(same_below(t, next, base as int));
    lemma_same_less(s, t, base as int, base + 7);
    lemma_same_chain(s0, s, t, base as int, base as int);
    lemma_same_chain(s0, t, next, base as int, base as int);
    lemma_still_holds(ctx, s, t, base as int);
    lemma_still_holds(ctx, t, next, base as int);
    assert(kept_memory(s0, next)) by {
        assert forall|b: int| b < s0.free implies {
            &&& #[trigger] s0.mem.dom().contains(b) == next.mem.dom().contains(b)
            &&& s0.mem.dom().contains(b) ==> s0.mem[b] == next.mem[b]
        } by {
            assert(s0.mem.dom().contains(b) == s.mem.dom().contains(b));
            assert(s.mem.dom().contains(b) == t.mem.dom().contains(b));
        }
    }
    assert(reads(next.mem, r, 4, len as int)) by {
        assert(s.mem.dom().contains(r) == t.mem.dom().contains(r));
    }
    assert(same_between(t.mem, next.mem, inner, t.free));
    assert forall|j: int| 0 <= j < k + 1 implies #[trigger] element_is(
        next.mem,
        inner,
        next.free,
        r,
        j,
        q(a + j),
    ) by {
        let at = payload_of(r) + 8 * j;
        if j < k {
            assert(element_is(s.mem, inner, s.free, r, j, q(a + j)));
            assert(local(q(a + j)));
            assert(s.mem.dom().contains(at) == t.mem.dom().contains(at));
            assert(same_between(s.mem, next.mem, inner, s.free)) by {
                assert forall|b: int| inner <= b < s.free implies {
                    &&& #[trigger] s.mem.dom().contains(b) == next.mem.dom().contains(b)
                    &&& s.mem.dom().contains(b) ==> s.mem[b] == next.mem[b]
                } by {
                    assert(s.mem.dom().contains(b) == t.mem.dom().contains(b));
                    assert(t.mem.dom().contains(b) == next.mem.dom().contains(b));
                }
            }
            lemma_element_stays(
                s.mem,
                next.mem,
                inner,
                s.free,
                inner,
                next.free,
                r,
                j,
                q(a + j),
            );
        } else {
            assert(local(q(a + k)));
            assert(q(a + k)(t.mem, s.free, t.free, v));
            assert(same_between(t.mem, next.mem, s.free, t.free));
            assert(q(a + k)(next.mem, s.free, t.free, v));
            assert(claimed(q(a + k), next.mem, inner, next.free, v));
            assert(reads(next.mem, at, 8, v));
        }
    }
    next
}

/// What runs in a fill loop.
pub open spec fn fill_body(
    base: u32,
    val: u32,
    code: Seq<TaggedOpView>,
    range: TokenRange,
) -> Seq<TaggedOpView> {
    exit_guard((base + 5) as u32, (base + 2) as u32, IrType::I32, 1, range) + (code
        + store_and_advance(
        (base + 4) as u32,
        (base + 5) as u32,
        (base + 6) as u32,
        val,
        range,
    ))
}

/// The loop adds the elements that are left.
proof fn lemma_fill_loop(
    ctx: Map<u32, int>,
    code: Seq<TaggedOpView>,
    s0: Machine,
    s: Machine,
    base: u32,
    val: u32,
    a: int,
    len: nat,
    k: nat,
    q: spec_fn(int) -> Claim,
    need: nat,
    n: nat,
    range: TokenRange,
    rounds: nat,
) -> (end: Machine)
    requires
        base + 8 <= u32::MAX,
        context_below(ctx, base as int),
        solid(s0),
        forall|x: int| a <= x < a + len ==> local(#[trigger] q(x)),
        makes_element(ctx, code, base, val, a, len, q, need, n),
        filling(ctx, s0, s, base, a, len, k, q, need),
        k <= len,
        fits(a + len),
        fits(a),
        rounds > n + len - k,
    ensures
        filling(ctx, s0, end, base, a, len, len, q, need),
        step(
            TaggedOpView {
                op: OpView::Loop { result_ty: None, body: fill_body(base, val, code, range) },
                range,
            },
            s,
            rounds,
        ) == Flow::Jump(0, end),
    decreases len - k,
{
    let body = fill_body(base, val, code, range);
    let whole = TaggedOpView { op: OpView::Loop { result_ty: None, body }, range };
    let left = (rounds - 1) as nat;
    let rest = code + store_and_advance(
        (base + 4) as u32,
        (base + 5) as u32,
        (base + 6) as u32,
        val,
        range,
    );
    lemma_guard_32((base + 5) as u32, (base + 2) as u32, rest, range, s, left);
    if k < len {
        let next = lemma_fill_round(
            ctx,
            code,
            s0,
            s,
            base,
            val,
            a,
            len,
            k,
            q,
            need,
            n,
            range,
            left,
        );
        assert(run(body, s, left) == Flow::Jump(0, next));
        let end = lemma_fill_loop(
            ctx,
            code,
            s0,
            next,
            base,
            val,
            a,
            len,
            k + 1,
            q,
            need,
            n,
            range,
            left,
        );
        assert(step(whole, s, rounds) == step(whole, next, left));
        end
    } else {
        assert(run(body, s, left) == Flow::Jump(1, s));
        s
    }
}

/// The claims on the elements from `a` on, by their place.
pub open spec fn placed_from(q: spec_fn(int) -> Claim, a: int) -> spec_fn(int) -> Claim {
    |k: int| q(a + k)
}

/// The bounds of a range are computed, and there is room for its list with
/// `need` more bytes for each element.
pub open spec fn bounds_build<L: SubLowering>(
    ctx: Map<u32, int>,
    low: L,
    args: Seq<CallArg>,
    range: TokenRange,
    scope: Scope<'_>,
    base: u32,
    at: SlotsView,
    a: int,
    b: int,
    n: nat,
) -> bool {
    &&& base + 8 <= u32::MAX
    &&& context_below(ctx, base as int)
    &&& fits(a)
    &&& fits(b)
    &&& fits(b - a)
    &&& start_value(low, args, range, scope, at) matches Ok(lo)
    &&& builds(ctx, lo.ops, base + 7, equals(a), 0, n)
    &&& end_value(low, args, range, scope, lo.slots) matches Ok(hi)
    &&& builds(ctx, hi.ops, base + 7, equals(b), 0, n)
}

/// A computed value goes into a slot.
pub proof fn lemma_set_built(
    ctx: Map<u32, int>,
    code: Seq<TaggedOpView>,
    target: u32,
    ty: IrType,
    range: TokenRange,
    base: int,
    q: Claim,
    need: nat,
    n: nat,
    s: Machine,
    rounds: nat,
) -> (t: Machine)
    requires
        target < base,
        context_below(ctx, target as int),
        builds(ctx, code, base, q, need, n),
        holds(ctx, s),
        solid(s),
        s.free + need <= limit(),
        rounds >= n,
    ensures
        run(code + seq![let_set(target, ty, range)], s, rounds) == Flow::Next(t),
        t.stack == s.stack,
        t.lets.dom().contains(target),
        forall|slot: u32|
            slot < base && slot != target ==> (#[trigger] s.lets.dom().contains(slot)
                == t.lets.dom().contains(slot) && s.lets[slot] == t.lets[slot]),
        same_below(s, t, target as int),
        holds(ctx, t),
        solid(t),
        kept_memory(s, t),
        t.free <= s.free + need,
        q(t.mem, s.free, t.free, t.lets[target]),
{
    broadcast use group_straight;

    let tail = seq![let_set(target, ty, range)];
    lemma_run_concat(code, tail, 0, s, rounds);
    let u = run(code, s, rounds)->Next_0;
    let bare = Machine { stack: s.stack, ..u };
    let v = u.operand(0);
    assert(u == bare.pushed(v));
    let t = bare.with_let(target, v);
    assert(run_from(tail, 0, u, rounds) == Flow::Next(t));
    assert forall|slot: u32| slot < base && slot != target implies (
    #[trigger] s.lets.dom().contains(slot) == t.lets.dom().contains(slot) && s.lets[slot]
        == t.lets[slot]) by {
        assert(s.lets.dom().contains(slot) == u.lets.dom().contains(slot));
    }
    lemma_still_holds(ctx, s, t, target as int);
    t
}

/// What is before the loop sets the loop up.
proof fn lemma_prologue_sets_up<L: SubLowering>(
    ctx: Map<u32, int>,
    low: L,
    args: Seq<CallArg>,
    range: TokenRange,
    scope: Scope<'_>,
    base: u32,
    at: SlotsView,
    a: int,
    b: int,
    q: spec_fn(int) -> Claim,
    need: nat,
    n: nat,
    s: Machine,
    rounds: nat,
) -> (t: Machine)
    requires
        bounds_build(ctx, low, args, range, scope, base, at, a, b, n),
        holds(ctx, s),
        solid(s),
        s.free + 8 + 8 * span(a, b) + span(a, b) * need <= limit(),
        rounds >= n,
    ensures
        list_prologue(low, args, range, scope, base, at) matches Ok(pre) && run(pre.ops, s, rounds)
            == Flow::Next(t),
        filling(ctx, s, t, base, a, span(a, b), 0, q, need),
{
    let len = span(a, b);
    assert(len * need >= 0) by (nonlinear_arith);
    let start = base;
    let span_slot = (base + 1) as u32;
    let count = (base + 2) as u32;
    let record = (base + 3) as u32;
    let payload = (base + 4) as u32;
    let i = (base + 5) as u32;
    let elem = (base + 6) as u32;
    let lo = start_value(low, args, range, scope, at)->Ok_0;
    let hi = end_value(low, args, range, scope, lo.slots)->Ok_0;
    let pre = list_prologue(low, args, range, scope, base, at)->Ok_0;
    let first = lo.ops + seq![let_set(start, IrType::I64, range)];
    let diff = seq![
        let_get(start, IrType::I64, range),
        sop(SimpleOp::Sub(IrType::I64), range),
        let_set(span_slot, IrType::I64, range),
    ];
    let clamp = clamp_span(span_slot, count, range);
    let alloc = alloc_list(count, record, range);
    let address = payload_address(record, IrType::I32, payload, range);
    let cursor = init_cursor(start, i, elem, range);
    let rest = diff + (clamp + (alloc + (address + cursor)));
    assert(pre.ops =~= first + (hi.ops + rest));
    let t1 = lemma_set_built(
        ctx,
        lo.ops,
        start,
        IrType::I64,
        range,
        base + 7,
        equals(a),
        0,
        n,
        s,
        rounds,
    );
    lemma_run_concat(first, hi.ops + rest, 0, s, rounds);
    lemma_run_concat(hi.ops, rest, 0, t1, rounds);
    let t2 = run(hi.ops, t1, rounds)->Next_0;
    assert(t1.lets.dom().contains(start) == t2.lets.dom().contains(start));
    let bare = Machine { stack: s.stack, ..t2 };
    assert(t2 == bare.pushed(b));
    let t3 = bare.with_let(span_slot, b - a);
    assert(run(diff, t2, rounds) == Flow::Next(t3)) by {
        broadcast use group_straight;

        assert(run_from(diff, 0, t2, rounds) == Flow::Next(t3));
    }
    lemma_run_concat(diff, clamp + (alloc + (address + cursor)), 0, t2, rounds);
    lemma_clamp_span(span_slot, count, range, t3, rounds);
    lemma_run_concat(clamp, alloc + (address + cursor), 0, t3, rounds);
    let t4 = t3.with_let(count, len as int);
    lemma_alloc_list(count, record, range, t4, rounds);
    lemma_run_concat(alloc, address + cursor, 0, t4, rounds);
    let r = t4.free;
    assert(r == s.free);
    let t5 = t4.with_block((8 + 8 * len) as int).with_let(record, r).with_cell(r, 4, len as int);
    lemma_payload_address(record, IrType::I32, payload, range, t5, rounds);
    lemma_run_concat(address, cursor, 0, t5, rounds);
    let t6 = t5.with_let(payload, payload_of(r));
    lemma_init_cursor(start, i, elem, range, t6, rounds);
    let t = t6.with_let(i, 0).with_let(elem, a);
    assert(same_below(s, t, base as int)) by {
        assert forall|slot: u32| slot < base implies (#[trigger] s.lets.dom().contains(slot)
            == t.lets.dom().contains(slot) && s.lets[slot] == t.lets[slot]) by {
            assert(s.lets.dom().contains(slot) == t1.lets.dom().contains(slot));
            assert(t1.lets.dom().contains(slot) == t2.lets.dom().contains(slot));
        }
    }
    lemma_still_holds(ctx, s, t, base as int);
    assert(kept_memory(s, t)) by {
        assert forall|x: int| x < s.free implies {
            &&& #[trigger] s.mem.dom().contains(x) == t.mem.dom().contains(x)
            &&& s.mem.dom().contains(x) ==> s.mem[x] == t.mem[x]
        } by {
            assert(s.mem.dom().contains(x) == t1.mem.dom().contains(x));
            assert(t1.mem.dom().contains(x) == t2.mem.dom().contains(x));
        }
    }
    assert(solid(t)) by {
        assert forall|x: int| #[trigger] t.mem.dom().contains(x) implies 0 < t.mem[x].width && x
            + t.mem[x].width <= t.free by {
            if x != r {
                assert(t2.mem.dom().contains(x));
            }
        }
    }
    t
}

/// The loop and the read of the record behind it push the list.
proof fn lemma_list_pushed(
    ctx: Map<u32, int>,
    code: Seq<TaggedOpView>,
    s0: Machine,
    s: Machine,
    base: u32,
    val: u32,
    a: int,
    len: nat,
    q: spec_fn(int) -> Claim,
    need: nat,
    n: nat,
    range: TokenRange,
    rounds: nat,
)
    requires
        base + 8 <= u32::MAX,
        context_below(ctx, base as int),
        solid(s0),
        forall|x: int| a <= x < a + len ==> local(#[trigger] q(x)),
        makes_element(ctx, code, base, val, a, len, q, need, n),
        filling(ctx, s0, s, base, a, len, 0, q, need),
        fits(a + len),
        fits(a),
        rounds > n + len,
    ensures
        ({
            let tail = seq![
                loop_op(fill_body(base, val, code, range), range),
                let_get((base + 3) as u32, IrType::I32, range),
            ];
            &&& run(tail, s, rounds) matches Flow::Next(t)
            &&& t.stack.len() == s0.stack.len() + 1
            &&& t.stack == s0.stack.push(t.operand(0))
            &&& same_below(s0, t, base as int)
            &&& solid(t)
            &&& kept_memory(s0, t)
            &&& t.free <= s0.free + 8 + 8 * len + len * need
            &&& list_of(len, placed_from(q, a))(t.mem, s0.free, t.free, t.operand(0))
        }),
{
    let end = lemma_fill_loop(
        ctx,
        code,
        s0,
        s,
        base,
        val,
        a,
        len,
        0,
        q,
        need,
        n,
        range,
        rounds,
    );
    let body = fill_body(base, val, code, range);
    let whole = TaggedOpView { op: OpView::Loop { result_ty: None, body }, range };
    let outer = seq![whole];
    assert(run_from(outer, 0, s, rounds) == step(whole, s, rounds));
    let looped = loop_op(body, range);
    assert(step(block_op(outer, range), s, rounds) == behind_block(
        run_from(outer, 0, s, rounds),
    ));
    let tail = seq![looped, let_get((base + 3) as u32, IrType::I32, range)];
    assert(step(tail[0], s, rounds) == Flow::Next(end));
    assert(run_from(tail, 0, s, rounds) == run_from(tail, 1, end, rounds));
    let r = s0.free;
    let t = end.pushed(r);
    assert(run_from(tail, 1, end, rounds) == Flow::Next(t)) by {
        broadcast use group_straight;

    }
    assert(same_below(end, t, base as int));
    lemma_same_chain(s0, end, t, base as int, base as int);
    let p = placed_from(q, a);
    assert forall|k: int| 0 <= k < len implies #[trigger] element_is(
        t.mem,
        r,
        t.free,
        r,
        k,
        p(k),
    ) by {
        assert(element_is(end.mem, r + 8 + 8 * len, end.free, r, k, q(a + k)));
        assert(local(q(a + k)));
        lemma_element_stays(
            end.mem,
            t.mem,
            r + 8 + 8 * len,
            end.free,
            r,
            t.free,
            r,
            k,
            q(a + k),
        );
    }
}

/// The code of `range(..)` as a list builds the list of its elements: the length
/// at the head of the record is `max(b - a, 0)`, and slot `k` holds `a + k`.
pub proof fn law_range_list_is_built<L: SubLowering>(
    ctx: Map<u32, int>,
    low: L,
    args: Seq<CallArg>,
    range: TokenRange,
    scope: Scope<'_>,
    at: SlotsView,
    a: int,
    b: int,
    n: nat,
)
    requires
        bounds_build(ctx, low, args, range, scope, at.lets, at.after(7), a, b, n),
    ensures
        range_list(low, args, range, scope, at) matches Ok(f) && builds(
            ctx,
            f.ops,
            at.lets as int,
            list_of(span(a, b), placed_from(|x: int| equals(x), a)),
            8 + 8 * span(a, b),
            n + 1 + span(a, b),
        ),
{
    let base = at.lets;
    let len = span(a, b);
    let q = |x: int| equals(x);
    let none = Seq::<TaggedOpView>::empty();
    let elem = (base + 6) as u32;
    let pre = list_prologue(low, args, range, scope, base, at.after(7))->Ok_0;
    let f = range_list(low, args, range, scope, at)->Ok_0;
    let body = fill_body(base, elem, none, range);
    let tail = seq![loop_op(body, range), let_get((base + 3) as u32, IrType::I32, range)];
    assert(none + store_and_advance((base + 4) as u32, (base + 5) as u32, elem, elem, range)
        =~= store_and_advance((base + 4) as u32, (base + 5) as u32, elem, elem, range));
    assert(f.ops =~= pre.ops + tail);
    assert forall|s: Machine, rounds: nat| #[trigger]
        run(none, s, rounds) == Flow::Next(s) by {}
    assert(makes_element(ctx, none, base, elem, a, len, q, 0, n));
    assert(len * 0 == 0);
    assert forall|s: Machine, rounds: nat|
        holds(ctx, s) && solid(s) && s.free + (8 + 8 * len) <= limit() && rounds >= n + 1
            + len implies {
        &&& #[trigger] run(f.ops, s, rounds) matches Flow::Next(t)
        &&& t.stack.len() == s.stack.len() + 1
        &&& t.stack == s.stack.push(t.operand(0))
        &&& same_below(s, t, base as int)
        &&& solid(t)
        &&& kept_memory(s, t)
        &&& t.free <= s.free + (8 + 8 * len)
        &&& list_of(len, placed_from(q, a))(t.mem, s.free, t.free, t.operand(0))
    } by {
        let t = lemma_prologue_sets_up(
            ctx,
            low,
            args,
            range,
            scope,
            base,
            at.after(7),
            a,
            b,
            q,
            0,
            n,
            s,
            rounds,
        );
        lemma_run_concat(pre.ops, tail, 0, s, rounds);
        lemma_list_pushed(ctx, none, s, t, base, elem, a, len, q, 0, n, range, rounds);
    }
}

/// The code of a round of a mapped list makes its element.
proof fn lemma_makes_mapped(
    ctx: Map<u32, int>,
    value: Seq<TaggedOpView>,
    base: u32,
    param: u32,
    a: int,
    len: nat,
    q: spec_fn(int) -> Claim,
    need: nat,
    n: nat,
    range: TokenRange,
)
    requires
        base + 8 <= param < u32::MAX,
        context_below(ctx, base as int),
        forall|x: int|
            a <= x < a + len ==> #[trigger] builds(
                ctx.insert(param, x),
                value,
                param + 1,
                q(x),
                need,
                n,
            ),
    ensures
        makes_element(
            ctx,
            seq![
                let_get((base + 6) as u32, IrType::I64, range),
                let_set(param, IrType::I64, range),
            ] + (value + seq![let_set((base + 7) as u32, IrType::I64, range)]),
            base,
            (base + 7) as u32,
            a,
            len,
            q,
            need,
            n,
        ),
{
    let elem = (base + 6) as u32;
    let val = (base + 7) as u32;
    let copy = seq![let_get(elem, IrType::I64, range), let_set(param, IrType::I64, range)];
    let store = seq![let_set(val, IrType::I64, range)];
    let code = copy + (value + store);
    assert forall|s: Machine, rounds: nat|
        holds(ctx, s) && solid(s) && s.free + need <= limit() && rounds >= n
            && s.lets.dom().contains(elem) && a <= s.lets[elem] < a + len implies {
        &&& #[trigger] run(code, s, rounds) matches Flow::Next(t)
        &&& t.stack == s.stack
        &&& same_below(s, t, base + 7)
        &&& solid(t)
        &&& kept_memory(s, t)
        &&& t.free <= s.free + need
        &&& t.lets.dom().contains(val)
        &&& q(s.lets[elem])(t.mem, s.free, t.free, t.lets[val])
    } by {
        let x = s.lets[elem];
        let u = s.with_let(param, x);
        assert(run(copy, s, rounds) == Flow::Next(u)) by {
            broadcast use group_straight;

            assert(run_from(copy, 0, s, rounds) == Flow::Next(u));
        }
        lemma_run_concat(copy, value + store, 0, s, rounds);
        let inside = ctx.insert(param, x);
        assert(holds(inside, u)) by {
            assert forall|slot: u32| #[trigger] inside.dom().contains(slot) implies
                u.lets.dom().contains(slot) && u.lets[slot] == inside[slot] by {
                if slot != param {
                    assert(ctx.dom().contains(slot));
                }
            }
        }
        assert(solid(u));
        assert(builds(inside, value, param + 1, q(x), need, n));
        lemma_run_concat(value, store, 0, u, rounds);
        let w = run(value, u, rounds)->Next_0;
        let bare = Machine { stack: s.stack, ..w };
        let v = w.operand(0);
        assert(w == bare.pushed(v));
        let t = bare.with_let(val, v);
        assert(run(store, w, rounds) == Flow::Next(t)) by {
            broadcast use group_straight;

            assert(run_from(store, 0, w, rounds) == Flow::Next(t));
        }
        assert forall|slot: u32| slot < base + 7 implies (#[trigger] s.lets.dom().contains(slot)
            == t.lets.dom().contains(slot) && s.lets[slot] == t.lets[slot]) by {
            assert(u.lets.dom().contains(slot) == w.lets.dom().contains(slot));
        }
        assert(kept_memory(s, t)) by {
            assert forall|c: int| c < s.free implies {
                &&& #[trigger] s.mem.dom().contains(c) == t.mem.dom().contains(c)
                &&& s.mem.dom().contains(c) ==> s.mem[c] == t.mem[c]
            } by {
                assert(u.mem.dom().contains(c) == w.mem.dom().contains(c));
            }
        }
    }
}

/// The code of a mapped range as a list builds the list of the values of its
/// body: the length at the head of the record is `max(b - a, 0)`, and slot `k`
/// holds the value of the body for `a + k`. Where that value is again a list, it
/// is one that the code has built.
pub proof fn law_mapped_list_is_built<L: SubLowering>(
    ctx: Map<u32, int>,
    low: L,
    args: Seq<CallArg>,
    value: FragmentView,
    range: TokenRange,
    scope: Scope<'_>,
    at: SlotsView,
    a: int,
    b: int,
    q: spec_fn(int) -> Claim,
    need: nat,
    n: nat,
)
    requires
        bounds_build(ctx, low, args, range, scope, at.lets, at.after(8), a, b, n),
        forall|x: int| a <= x < b ==> local(#[trigger] q(x)),
        list_prologue(low, args, range, scope, at.lets, at.after(8)) matches Ok(pre) && {
            &&& at.lets + 8 <= pre.slots.lets < u32::MAX
            &&& forall|x: int|
                a <= x < b ==> #[trigger] builds(
                    ctx.insert(pre.slots.lets, x),
                    value.ops,
                    pre.slots.lets + 1,
                    q(x),
                    need,
                    n,
                )
        },
    ensures
        list_prologue(low, args, range, scope, at.lets, at.after(8)) matches Ok(pre) && builds(
            ctx,
            mapped_list(pre, value, at.lets, range).ops,
            at.lets as int,
            list_of(span(a, b), placed_from(q, a)),
            8 + 8 * span(a, b) + span(a, b) * need,
            n + 1 + span(a, b),
        ),
{
    let base = at.lets;
    let len = span(a, b);
    let pre = list_prologue(low, args, range, scope, base, at.after(8))->Ok_0;
    let param = pre.slots.lets;
    let elem = (base + 6) as u32;
    let val = (base + 7) as u32;
    let code = seq![let_get(elem, IrType::I64, range), let_set(param, IrType::I64, range)] + (
    value.ops + seq![let_set(val, IrType::I64, range)]);
    let ops = mapped_list(pre, value, base, range).ops;
    let body = fill_body(base, val, code, range);
    let tail = seq![loop_op(body, range), let_get((base + 3) as u32, IrType::I32, range)];
    let guard = exit_guard((base + 5) as u32, (base + 2) as u32, IrType::I32, 1, range);
    let last = store_and_advance((base + 4) as u32, (base + 5) as u32, elem, val, range);
    assert((guard.push(let_get(elem, IrType::I64, range)).push(
        let_set(param, IrType::I64, range),
    ) + value.ops).push(let_set(val, IrType::I64, range)) + last =~= body);
    assert(ops =~= pre.ops + tail);
    lemma_makes_mapped(ctx, value.ops, base, param, a, len, q, need, n, range);
    let room = 8 + 8 * len + len * need;
    assert forall|s: Machine, rounds: nat|
        holds(ctx, s) && solid(s) && s.free + room <= limit() && rounds >= n + 1 + len implies {
        &&& #[trigger] run(ops, s, rounds) matches Flow::Next(t)
        &&& t.stack.len() == s.stack.len() + 1
        &&& t.stack == s.stack.push(t.operand(0))
        &&& same_below(s, t, base as int)
        &&& solid(t)
        &&& kept_memory(s, t)
        &&& t.free <= s.free + room
        &&& list_of(len, placed_from(q, a))(t.mem, s.free, t.free, t.operand(0))
    } by {
        let t = lemma_prologue_sets_up(
            ctx,
            low,
            args,
            range,
            scope,
            base,
            at.after(8),
            a,
            b,
            q,
            need,
            n,
            s,
            rounds,
        );
        lemma_run_concat(pre.ops, tail, 0, s, rounds);
        lemma_list_pushed(ctx, code, s, t, base, val, a, len, q, need, n, range, rounds);
    }
}

/// A bound list is built: a bare range, or a mapped one.
pub proof fn law_list_value_is_built<L: SubLowering>(
    ctx: Map<u32, int>,
    low: L,
    expr: Expr,
    range: TokenRange,
    scope: Scope<'_>,
    at: SlotsView,
    a: int,
    b: int,
    q: spec_fn(int) -> Claim,
    need: nat,
    n: nat,
)
    requires
        match bare_range(&expr) {
            Some(args) => bounds_build(
                ctx,
                low,
                args@,
                range,
                scope,
                at.lets,
                at.after(7),
                a,
                b,
                n,
            ) && q == (|x: int| equals(x)) && need == 0,
            None => {
                &&& single_map(&expr) matches Some((args, param, body))
                &&& bounds_build(
                    ctx,
                    low,
                    args@,
                    range,
                    scope,
                    at.lets,
                    at.after(8),
                    a,
                    b,
                    n,
                )
                &&& forall|x: int| a <= x < b ==> local(#[trigger] q(x))
                &&& list_prologue(
                    low,
                    args@,
                    range,
                    scope,
                    at.lets,
                    at.after(8),
                ) matches Ok(pre)
                &&& at.lets + 8 <= pre.slots.lets < u32::MAX
                &&& mapped_value(
                    low,
                    *body,
                    scope.with(param.name, pre.slots.lets, IrType::I64),
                    pre.slots.after(1),
                ) matches Ok(value)
                &&& forall|x: int|
                    a <= x < b ==> #[trigger] builds(
                        ctx.insert(pre.slots.lets, x),
                        value.ops,
                        pre.slots.lets + 1,
                        q(x),
                        need,
                        n,
                    )
            },
        },
    ensures
        list_value(low, expr, range, scope, at) matches Ok(f) && builds(
            ctx,
            f.ops,
            at.lets as int,
            list_of(span(a, b), placed_from(q, a)),
            8 + 8 * span(a, b) + span(a, b) * need,
            n + 1 + span(a, b),
        ),
{
    match bare_range(&expr) {
        Some(args) => {
            assert(span(a, b) * 0 == 0);
            law_range_list_is_built(ctx, low, args@, range, scope, at, a, b, n);
        },
        None => {
            let (args, param, body) = single_map(&expr)->0;
            let pre = list_prologue(low, args@, range, scope, at.lets, at.after(8))->Ok_0;
            let inner = scope.with(param.name, pre.slots.lets, IrType::I64);
            let value = mapped_value(low, *body, inner, pre.slots.after(1))->Ok_0;
            law_mapped_list_is_built(
                ctx,
                low,
                args@,
                value,
                range,
                scope,
                at,
                a,
                b,
                q,
                need,
                n,
            );
        },
    }
}

/// The value of the body of a mapped list: again a list, or a cell.
pub open spec fn mapped_value<L: SubLowering>(
    low: L,
    body: Node,
    scope: Scope<'_>,
    at: SlotsView,
) -> Result<FragmentView, ErrorView> {
    if is_list_value(*body.expr) {
        list_value(low, *body.expr, body.range, scope, at)
    } else {
        cell_value(low, body, scope, at)
    }
}

// ---------------------------------------------------------------------------
// Computed literals.
// ---------------------------------------------------------------------------

/// The record that was handed out first behind `s0` holds its length and its
/// first `k` elements.
pub open spec fn partly_built(
    s0: Machine,
    s: Machine,
    len: nat,
    k: nat,
    q: spec_fn(int) -> Claim,
    need: nat,
) -> bool {
    let r = s0.free;
    let inner = r + 8 + 8 * len;
    &&& solid(s)
    &&& inner <= s.free <= inner + k * need
    &&& inner + len * need <= limit()
    &&& kept_memory(s0, s)
    &&& reads(s.mem, r, 4, len as int)
    &&& forall|j: int| 0 <= j < k ==> #[trigger] element_is(s.mem, inner, s.free, r, j, q(j))
}

/// Storing the next element behind its computation adds it.
proof fn lemma_element_added(
    s0: Machine,
    s: Machine,
    t: Machine,
    len: nat,
    k: nat,
    v: int,
    q: spec_fn(int) -> Claim,
    need: nat,
)
    requires
        solid(s0),
        partly_built(s0, s, len, k, q, need),
        k < len,
        forall|j: int| 0 <= j < len ==> local(#[trigger] q(j)),
        solid(t),
        kept_memory(s, t),
        t.free <= s.free + need,
        q(k as int)(t.mem, s.free, t.free, v),
    ensures
        partly_built(
            s0,
            t.with_cell(payload_of(s0.free) + 8 * k, 8, v),
            len,
            k + 1,
            q,
            need,
        ),
{
    let r = s0.free;
    let inner = r + 8 + 8 * len;
    let addr = payload_of(r) + 8 * k;
    let next = t.with_cell(addr, 8, v);
    assert(k * need + need == (k + 1) * need) by (nonlinear_arith);
    assert(payload_of(r) == r + 8);
    assert forall|b: int| #[trigger] next.mem.dom().contains(b) implies 0 < next.mem[b].width && b
        + next.mem[b].width <= next.free by {
        if b != addr {
            assert(t.mem.dom().contains(b));
        }
    }
    assert forall|b: int| b < s0.free implies {
        &&& #[trigger] s0.mem.dom().contains(b) == next.mem.dom().contains(b)
        &&& s0.mem.dom().contains(b) ==> s0.mem[b] == next.mem[b]
    } by {
        assert(s0.mem.dom().contains(b) == s.mem.dom().contains(b));
        assert(s.mem.dom().contains(b) == t.mem.dom().contains(b));
    }
    assert(reads(next.mem, r, 4, len as int)) by {
        assert(s.mem.dom().contains(r) == t.mem.dom().contains(r));
    }
    assert(same_between(s.mem, next.mem, inner, s.free)) by {
        assert forall|b: int| inner <= b < s.free implies {
            &&& #[trigger] s.mem.dom().contains(b) == next.mem.dom().contains(b)
            &&& s.mem.dom().contains(b) ==> s.mem[b] == next.mem[b]
        } by {
            assert(s.mem.dom().contains(b) == t.mem.dom().contains(b));
        }
    }
    assert forall|j: int| 0 <= j < k + 1 implies #[trigger] element_is(
        next.mem,
        inner,
        next.free,
        r,
        j,
        q(j),
    ) by {
        let at = payload_of(r) + 8 * j;
        assert(local(q(j)));
        if j < k {
            assert(element_is(s.mem, inner, s.free, r, j, q(j)));
            assert(s.mem.dom().contains(at) == t.mem.dom().contains(at));
            lemma_element_stays(s.mem, next.mem, inner, s.free, inner, next.free, r, j, q(j));
        } else {
            assert(same_between(t.mem, next.mem, s.free, t.free));
            assert(q(j)(next.mem, s.free, t.free, v));
            assert(claimed(q(j), next.mem, inner, next.free, v));
            assert(reads(next.mem, at, 8, v));
        }
    }
}

/// The code of each element builds a value of which `q` holds.
pub open spec fn elements_build<L: SubLowering>(
    ctx: Map<u32, int>,
    low: L,
    kind: LiteralKind,
    items: Seq<Node>,
    payload: u32,
    range: TokenRange,
    scope: Scope<'_>,
    at: SlotsView,
    q: spec_fn(int) -> Claim,
    need: nat,
    n: nat,
) -> bool
    decreases items.len(),
{
    items.len() > 0 ==> {
        let index = (items.len() - 1) as nat;
        let before = items.drop_last();
        &&& elements_build(ctx, low, kind, before, payload, range, scope, at, q, need, n)
        &&& element_stores(low, kind, before, payload, range, scope, at) matches Ok(pre)
        &&& element_value(low, kind, items.last(), index, scope, pre.slots) matches Ok(v)
        &&& builds(ctx, v.ops, payload + 1, q(index as int), need, n)
    }
}

/// The stores add the elements one after the other.
proof fn lemma_stores_add<L: SubLowering>(
    ctx: Map<u32, int>,
    low: L,
    kind: LiteralKind,
    items: Seq<Node>,
    base: u32,
    range: TokenRange,
    scope: Scope<'_>,
    at: SlotsView,
    len: nat,
    q: spec_fn(int) -> Claim,
    need: nat,
    n: nat,
    s0: Machine,
    s: Machine,
    rounds: nat,
) -> (t: Machine)
    requires
        base + 2 <= u32::MAX,
        items.len() <= len,
        context_below(ctx, base as int),
        elements_build(ctx, low, kind, items, (base + 1) as u32, range, scope, at, q, need, n),
        forall|j: int| 0 <= j < len ==> local(#[trigger] q(j)),
        solid(s0),
        holds(ctx, s),
        partly_built(s0, s, len, 0, q, need),
        s.lets.dom().contains(base),
        s.lets.dom().contains((base + 1) as u32),
        s.lets[(base + 1) as u32] == payload_of(s0.free),
        rounds >= n,
    ensures
        element_stores(low, kind, items, (base + 1) as u32, range, scope, at) matches Ok(f) && run(
            f.ops,
            s,
            rounds,
        ) == Flow::Next(t),
        t.stack == s.stack,
        same_below(s, t, base + 2),
        holds(ctx, t),
        partly_built(s0, t, len, items.len(), q, need),
    decreases items.len(),
{
    let payload = (base + 1) as u32;
    let f = element_stores(low, kind, items, payload, range, scope, at)->Ok_0;
    if items.len() == 0 {
        s
    } else {
        let k = (items.len() - 1) as nat;
        let before = items.drop_last();
        let u = lemma_stores_add(
            ctx,
            low,
            kind,
            before,
            base,
            range,
            scope,
            at,
            len,
            q,
            need,
            n,
            s0,
            s,
            rounds,
        );
        let pre = element_stores(low, kind, before, payload, range, scope, at)->Ok_0;
        let v = element_value(low, kind, items.last(), k, scope, pre.slots)->Ok_0;
        let address = seq![
            let_get(payload, IrType::I32, range),
            sop(SimpleOp::ConstI32((8 * k) as i32), range),
            sop(SimpleOp::Add(IrType::I32), range),
        ];
        let store = seq![sop(kind.store(), range)];
        assert(f.ops =~= pre.ops + (address + (v.ops + store)));
        let addr = payload_of(s0.free) + 8 * k;
        assert(s.lets.dom().contains(payload) == u.lets.dom().contains(payload));
        assert(k * need + need == (k + 1) * need) by (nonlinear_arith);
        assert((k + 1) * need <= len * need) by (nonlinear_arith)
            requires
                k < len,
        ;
        let u1 = u.pushed(addr);
        assert(run(address, u, rounds) == Flow::Next(u1)) by {
            broadcast use group_straight;

            assert(run_from(address, 0, u, rounds) == Flow::Next(u1));
        }
        lemma_run_concat(pre.ops, address + (v.ops + store), 0, s, rounds);
        lemma_run_concat(address, v.ops + store, 0, u, rounds);
        lemma_run_concat(v.ops, store, 0, u1, rounds);
        assert(holds(ctx, u1));
        assert(solid(u1));
        assert(builds(ctx, v.ops, payload + 1, q(k as int), need, n));
        let u2 = run(v.ops, u1, rounds)->Next_0;
        let x = u2.operand(0);
        let bare = Machine { stack: u.stack, ..u2 };
        assert(u2 == bare.pushed(addr).pushed(x));
        let t = bare.with_cell(addr, 8, x);
        assert(run(store, u2, rounds) == Flow::Next(t)) by {
            broadcast use group_straight;

            assert(run_from(store, 0, u2, rounds) == Flow::Next(t));
        }
        assert(kept_memory(u, bare)) by {
            assert forall|b: int| b < u.free implies {
                &&& #[trigger] u.mem.dom().contains(b) == bare.mem.dom().contains(b)
                &&& u.mem.dom().contains(b) ==> u.mem[b] == bare.mem[b]
            } by {
                assert(u1.mem.dom().contains(b) == u2.mem.dom().contains(b));
            }
        }
        lemma_element_added(s0, u, bare, len, k, x, q, need);
        assert(same_below(u, t, base + 2)) by {
            assert forall|slot: u32| slot < base + 2 implies (
            #[trigger] u.lets.dom().contains(slot) == t.lets.dom().contains(slot) && u.lets[slot]
                == t.lets[slot]) by {
                assert(u1.lets.dom().contains(slot) == u2.lets.dom().contains(slot));
            }
        }
        lemma_same_chain(s, u, t, base + 2, base + 2);
        lemma_same_less(u, t, base as int, base + 2);
        lemma_still_holds(ctx, u, t, base as int);
        t
    }
}

/// Behind the header no element is there yet.
proof fn lemma_literal_set_up(
    s: Machine,
    base: u32,
    len: nat,
    q: spec_fn(int) -> Claim,
    need: nat,
)
    requires
        base + 2 <= u32::MAX,
        solid(s),
        s.free + 8 + 8 * len + len * need <= limit(),
    ensures
        partly_built(
            s,
            s.with_block((8 + 8 * len) as int).with_let(base, s.free).with_cell(
                s.free,
                4,
                len as int,
            ).with_let((base + 1) as u32, payload_of(s.free)),
            len,
            0,
            q,
            need,
        ),
{
    let r = s.free;
    let t = s.with_block((8 + 8 * len) as int).with_let(base, r).with_cell(
        r,
        4,
        len as int,
    ).with_let((base + 1) as u32, payload_of(r));
    assert(0 * need == 0);
    assert(solid(t)) by {
        assert forall|x: int| #[trigger] t.mem.dom().contains(x) implies 0 < t.mem[x].width && x
            + t.mem[x].width <= t.free by {
            if x != r {
                assert(s.mem.dom().contains(x));
            }
        }
    }
}

/// A record with all its elements is a list.
proof fn lemma_all_built(s0: Machine, t: Machine, len: nat, q: spec_fn(int) -> Claim, need: nat)
    requires
        solid(s0),
        partly_built(s0, t, len, len, q, need),
        forall|j: int| 0 <= j < len ==> local(#[trigger] q(j)),
    ensures
        list_of(len, q)(t.mem, s0.free, t.free, s0.free),
{
    let r = s0.free;
    assert forall|k: int| 0 <= k < len implies #[trigger] element_is(
        t.mem,
        r,
        t.free,
        r,
        k,
        q(k),
    ) by {
        assert(element_is(t.mem, r + 8 + 8 * len, t.free, r, k, q(k)));
        assert(local(q(k)));
        lemma_element_stays(t.mem, t.mem, r + 8 + 8 * len, t.free, r, t.free, r, k, q(k));
    }
}

/// One run of the code of a computed literal.
proof fn lemma_literal_runs<L: SubLowering>(
    ctx: Map<u32, int>,
    low: L,
    kind: LiteralKind,
    items: Seq<Node>,
    range: TokenRange,
    scope: Scope<'_>,
    at: SlotsView,
    q: spec_fn(int) -> Claim,
    need: nat,
    n: nat,
    s: Machine,
    rounds: nat,
)
    requires
        8 + 8 * items.len() <= i32::MAX,
        at.lets + 2 <= u32::MAX,
        context_below(ctx, at.lets as int),
        elements_build(
            ctx,
            low,
            kind,
            items,
            (at.lets + 1) as u32,
            range,
            scope,
            at.after(2),
            q,
            need,
            n,
        ),
        forall|j: int| 0 <= j < items.len() ==> local(#[trigger] q(j)),
        holds(ctx, s),
        solid(s),
        s.free + (8 + 8 * items.len() + items.len() * need) <= limit(),
        rounds >= n,
    ensures
        literal_list(low, kind, items, range, scope, at) matches Ok(f) && {
            &&& run(f.ops, s, rounds) matches Flow::Next(t)
            &&& t.stack.len() == s.stack.len() + 1
            &&& t.stack == s.stack.push(t.operand(0))
            &&& same_below(s, t, at.lets as int)
            &&& solid(t)
            &&& kept_memory(s, t)
            &&& t.free <= s.free + (8 + 8 * items.len() + items.len() * need)
            &&& list_of(items.len(), q)(t.mem, s.free, t.free, t.operand(0))
        },
{
    let base = at.lets;
    let payload = (base + 1) as u32;
    let len = items.len();
    let stores = element_stores(low, kind, items, payload, range, scope, at.after(2));
    lemma_stores_succeed(ctx, low, kind, items, payload, range, scope, at.after(2), q, need, n);
    let f = literal_list(low, kind, items, range, scope, at)->Ok_0;
    let header = literal_header(len as int, base, range);
    let address = payload_address(base, IrType::I32, payload, range);
    let read = seq![let_get(base, IrType::I32, range)];
    assert(f.ops =~= header + (address + (stores->Ok_0.ops + read)));
    assert(len * need >= 0) by (nonlinear_arith);
    let r = s.free;
    let t1 = s.with_block((8 + 8 * len) as int).with_let(base, r).with_cell(r, 4, len as int);
    assert(run(header, s, rounds) == Flow::Next(t1)) by {
        lemma_literal_header(len as int, base, range, s, rounds);
    }
    lemma_run_concat(header, address + (stores->Ok_0.ops + read), 0, s, rounds);
    lemma_payload_address(base, IrType::I32, payload, range, t1, rounds);
    lemma_run_concat(address, stores->Ok_0.ops + read, 0, t1, rounds);
    let t2 = t1.with_let(payload, payload_of(r));
    lemma_literal_set_up(s, base, len, q, need);
    assert(same_below(s, t2, base as int));
    lemma_still_holds(ctx, s, t2, base as int);
    let t3 = lemma_stores_add(
        ctx,
        low,
        kind,
        items,
        base,
        range,
        scope,
        at.after(2),
        len,
        q,
        need,
        n,
        s,
        t2,
        rounds,
    );
    lemma_run_concat(stores->Ok_0.ops, read, 0, t2, rounds);
    assert(t2.lets.dom().contains(base) == t3.lets.dom().contains(base));
    let t = t3.pushed(r);
    assert(run(read, t3, rounds) == Flow::Next(t)) by {
        broadcast use group_straight;

        assert(run_from(read, 0, t3, rounds) == Flow::Next(t));
    }
    lemma_same_less(t2, t3, base as int, base + 2);
    lemma_same_chain(s, t2, t3, base as int, base as int);
    lemma_all_built(s, t3, len, q, need);
}

/// The code of a computed literal builds the list of its elements: the length at
/// the head of the record is their number, and slot `k` holds the value of
/// element `k`.
pub proof fn law_literal_list_is_built<L: SubLowering>(
    ctx: Map<u32, int>,
    low: L,
    kind: LiteralKind,
    items: Seq<Node>,
    range: TokenRange,
    scope: Scope<'_>,
    at: SlotsView,
    q: spec_fn(int) -> Claim,
    need: nat,
    n: nat,
)
    requires
        8 + 8 * items.len() <= i32::MAX,
        at.lets + 2 <= u32::MAX,
        context_below(ctx, at.lets as int),
        elements_build(
            ctx,
            low,
            kind,
            items,
            (at.lets + 1) as u32,
            range,
            scope,
            at.after(2),
            q,
            need,
            n,
        ),
        forall|j: int| 0 <= j < items.len() ==> local(#[trigger] q(j)),
    ensures
        literal_list(low, kind, items, range, scope, at) matches Ok(f) && builds(
            ctx,
            f.ops,
            at.lets as int,
            list_of(items.len(), q),
            8 + 8 * items.len() + items.len() * need,
            n,
        ),
{
    lemma_stores_succeed(
        ctx,
        low,
        kind,
        items,
        (at.lets + 1) as u32,
        range,
        scope,
        at.after(2),
        q,
        need,
        n,
    );
    let f = literal_list(low, kind, items, range, scope, at)->Ok_0;
    let room = 8 + 8 * items.len() + items.len() * need;
    assert forall|s: Machine, rounds: nat|
        holds(ctx, s) && solid(s) && s.free + room <= limit() && rounds >= n implies {
        &&& #[trigger] run(f.ops, s, rounds) matches Flow::Next(t)
        &&& t.stack.len() == s.stack.len() + 1
        &&& t.stack == s.stack.push(t.operand(0))
        &&& same_below(s, t, at.lets as int)
        &&& solid(t)
        &&& kept_memory(s, t)
        &&& t.free <= s.free + room
        &&& list_of(items.len(), q)(t.mem, s.free, t.free, t.operand(0))
    } by {
        lemma_literal_runs(ctx, low, kind, items, range, scope, at, q, need, n, s, rounds);
    }
}

/// The record of a literal is handed out, and its length is stored.
proof fn lemma_literal_header(len: int, base: u32, range: TokenRange, s: Machine, rounds: nat)
    requires
        0 <= len,
        8 + 8 * len <= i32::MAX,
    ensures
        run(literal_header(len, base, range), s, rounds) == Flow::Next(
            s.with_block(8 + 8 * len).with_let(base, s.free).with_cell(s.free, 4, len),
        ),
{
    broadcast use group_straight;

    let code = literal_header(len, base, range);
    let t = s.pushed(8 + 8 * len);
    assert(run_from(code, 0, s, rounds) == run_from(code, 1, t, rounds));
    let u = s.pushed(s.free).with_block(8 + 8 * len);
    assert(u == s.with_block(8 + 8 * len).pushed(s.free));
    assert(run_from(code, 1, t, rounds) == run_from(code, 2, u, rounds));
}

/// Elements that build have stores.
proof fn lemma_stores_succeed<L: SubLowering>(
    ctx: Map<u32, int>,
    low: L,
    kind: LiteralKind,
    items: Seq<Node>,
    payload: u32,
    range: TokenRange,
    scope: Scope<'_>,
    at: SlotsView,
    q: spec_fn(int) -> Claim,
    need: nat,
    n: nat,
)
    requires
        elements_build(ctx, low, kind, items, payload, range, scope, at, q, need, n),
    ensures
        element_stores(low, kind, items, payload, range, scope, at) is Ok,
{
}

} // verus!

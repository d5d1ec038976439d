//! What a pipeline over a range computes: its stages and its consumer applied
//! to one element after the other.

use vstd::prelude::*;

use crate::ast::{CallArg, TokenRange};
use crate::chain::{ChainStage, StageMethod};
use crate::fragment::{let_get, let_set, slot_at, Scope, SlotsView, SubLowering};
use crate::ir::{sop, IrType, SimpleOp, TaggedOpView};
use crate::meaning::{
    behind_block, context_below, fits, folded, holds, law_loop_folds, lemma_popped,
    lemma_run_concat, lemma_same_chain, lemma_same_less, lemma_simple, lemma_still_holds, ready,
    round_body, rounds_on, run, run_from, same_below, step, truth, Flow, Machine,
};
use crate::range_loop::{
    block_op, end_value, exit_guard, pipeline_fragment, pipeline_loop, run_consumer, run_stage,
    run_stages, seed_value, stage_value, start_value, step_and_loop, RangeConsumer, StageState,
};

verus! {

/// What a stage does to an element; `None` is a trap.
pub ghost enum Act {
    /// The element becomes this.
    Transform(spec_fn(int) -> Option<int>),
    /// The element stays where this is not zero, and is dropped elsewhere.
    Retain(spec_fn(int) -> Option<int>),
}

/// What has become of an element behind some stages.
pub ghost enum Passed {
    Value(int),
    Dropped,
    Trapped,
}

/// An element behind the stages, in source order.
pub open spec fn through(acts: Seq<Act>, x: int) -> Passed
    decreases acts.len(),
{
    if acts.len() == 0 {
        Passed::Value(x)
    } else {
        match through(acts.drop_last(), x) {
            Passed::Value(v) => match acts.last() {
                Act::Transform(g) => match g(v) {
                    None => Passed::Trapped,
                    Some(w) => Passed::Value(w),
                },
                Act::Retain(g) => match g(v) {
                    None => Passed::Trapped,
                    Some(w) => if w == 0 {
                        Passed::Dropped
                    } else {
                        Passed::Value(v)
                    },
                },
            },
            other => other,
        }
    }
}

/// The code pushes `v`, or traps where that is `None`, whenever the context
/// holds. The slots below `base` stay; its loops go round at most `n` times.
pub open spec fn yields(
    ctx: Map<u32, int>,
    code: Seq<TaggedOpView>,
    base: int,
    v: Option<int>,
    n: nat,
) -> bool {
    forall|s: Machine, rounds: nat|
        holds(ctx, s) && rounds >= n ==> match v {
            None => #[trigger] run(code, s, rounds) == Flow::Trap,
            Some(x) => {
                &&& run(code, s, rounds) matches Flow::Next(t)
                &&& t.stack == s.stack.push(x)
                &&& same_below(s, t, base)
            },
        }
}

/// The code yields `g` of what is in slot `x`.
pub open spec fn computes(
    ctx: Map<u32, int>,
    code: Seq<TaggedOpView>,
    x: u32,
    base: int,
    g: spec_fn(int) -> Option<int>,
    n: nat,
) -> bool {
    forall|v: int| #[trigger] yields(ctx.insert(x, v), code, base, g(v), n)
}

/// The code yields `h` of what is in slots `x` and `y`.
pub open spec fn computes_of_two(
    ctx: Map<u32, int>,
    code: Seq<TaggedOpView>,
    x: u32,
    y: u32,
    base: int,
    h: spec_fn(int, int) -> Option<int>,
    n: nat,
) -> bool {
    forall|v: int, w: int| #[trigger]
        yields(ctx.insert(x, v).insert(y, w), code, base, h(v, w), n)
}

/// The closures of the stages compute what `acts` says, in slots of their own.
pub open spec fn staged<L: SubLowering>(
    ctx: Map<u32, int>,
    low: L,
    stages: Seq<ChainStage<'_>>,
    range: TokenRange,
    scope: Scope<'_>,
    st: StageState,
    acts: Seq<Act>,
    n: nat,
) -> bool
    decreases stages.len(),
{
    &&& stages.len() == acts.len()
    &&& stages.len() > 0 ==> {
        &&& staged(ctx, low, stages.drop_last(), range, scope, st, acts.drop_last(), n)
        &&& run_stages(low, stages.drop_last(), range, scope, st) matches Ok(mid)
        &&& mid.slots.lets < u32::MAX
        &&& stage_value(low, stages.last(), scope, mid) matches Ok(f)
        &&& f.slots.lets > mid.slots.lets
        &&& match acts.last() {
            Act::Transform(g) => {
                &&& stages.last().method == StageMethod::Transform
                &&& computes(ctx, f.ops, mid.slots.lets, mid.slots.lets + 1, g, n)
            },
            Act::Retain(g) => {
                &&& stages.last().method == StageMethod::Retain
                &&& f.ty == Some(IrType::Bool)
                &&& computes(ctx, f.ops, mid.slots.lets, mid.slots.lets + 1, g, n)
            },
        }
    }
}

/// The emitted stages leave the element in slot `idx`, jump out of the
/// enclosing block where it is dropped, or trap.
pub open spec fn flows(
    ctx: Map<u32, int>,
    ops: Seq<TaggedOpView>,
    idx: u32,
    start: u32,
    base: int,
    acts: Seq<Act>,
    n: nat,
) -> bool {
    forall|s: Machine, rounds: nat|
        holds(ctx, s) && s.lets.dom().contains(start) && rounds >= n ==> match through(
            acts,
            s.lets[start],
        ) {
            Passed::Trapped => #[trigger] run(ops, s, rounds) == Flow::Trap,
            Passed::Dropped => {
                &&& run(ops, s, rounds) matches Flow::Jump(k, t)
                &&& k == 0
                &&& t.stack == s.stack
                &&& same_below(s, t, base)
            },
            Passed::Value(v) => {
                &&& run(ops, s, rounds) matches Flow::Next(t)
                &&& t.stack == s.stack
                &&& same_below(s, t, base)
                &&& t.lets.dom().contains(idx)
                &&& t.lets[idx] == v
            },
        }
}

/// A value is copied into another slot.
pub proof fn lemma_copied(
    from: u32,
    to: u32,
    ty: IrType,
    range: TokenRange,
    rest: Seq<TaggedOpView>,
    s: Machine,
    rounds: nat,
)
    requires
        s.lets.dom().contains(from),
    ensures
        run(seq![let_get(from, ty, range), let_set(to, ty, range)] + rest, s, rounds) == run(
            rest,
            s.with_let(to, s.lets[from]),
            rounds,
        ),
{
    let head = seq![let_get(from, ty, range), let_set(to, ty, range)];
    let v = s.lets[from];
    lemma_popped(s, v, 0);
    lemma_simple(head, 0, SimpleOp::LetGet { idx: from, ty }, s, rounds);
    lemma_simple(head, 1, SimpleOp::LetSet { idx: to, ty }, s.pushed(v), rounds);
    lemma_run_concat(head, rest, 0, s, rounds);
}

/// The value of a closure goes into a slot of its own.
pub proof fn lemma_transformed(
    q: u32,
    ty: IrType,
    range: TokenRange,
    t: Machine,
    v: int,
    rounds: nat,
)
    ensures
        run(seq![let_set(q, ty, range)], t.pushed(v), rounds) == Flow::Next(t.with_let(q, v)),
{
    let tail = seq![let_set(q, ty, range)];
    lemma_popped(t, v, 0);
    lemma_simple(tail, 0, SimpleOp::LetSet { idx: q, ty }, t.pushed(v), rounds);
}

/// The instructions that leave the block where a predicate is false.
pub open spec fn unless(range: TokenRange) -> Seq<TaggedOpView> {
    seq![
        sop(SimpleOp::ConstBool(false), range),
        sop(SimpleOp::Eq(IrType::Bool), range),
        sop(SimpleOp::BrIf { label_depth: 0 }, range),
    ]
}

proof fn lemma_retained(range: TokenRange, t: Machine, v: int, rounds: nat)
    ensures
        run(unless(range), t.pushed(v), rounds) == if v == 0 {
            Flow::Jump(0, t)
        } else {
            Flow::Next(t)
        },
{
    let tail = unless(range);
    lemma_popped(t, v, 0);
    lemma_popped(t, truth(v == 0), 0);
    lemma_simple(tail, 0, SimpleOp::ConstBool(false), t.pushed(v), rounds);
    lemma_simple(tail, 1, SimpleOp::Eq(IrType::Bool), t.pushed(v).pushed(0), rounds);
    lemma_simple(tail, 2, SimpleOp::BrIf { label_depth: 0 }, t.pushed(truth(v == 0)), rounds);
}

/// A machine with one more operand, told by its parts.
pub proof fn lemma_pushed_parts(s: Machine, t: Machine, v: int)
    requires
        t.stack == s.stack.push(v),
    ensures
        t == (Machine { stack: s.stack, ..t }).pushed(v),
{
}

/// One more stage.
proof fn lemma_stage_flows<L: SubLowering>(
    ctx: Map<u32, int>,
    low: L,
    stage: ChainStage<'_>,
    range: TokenRange,
    scope: Scope<'_>,
    mid: StageState,
    start: u32,
    base: int,
    acts: Seq<Act>,
    act: Act,
    n: nat,
)
    requires
        context_below(ctx, base),
        flows(ctx, mid.ops, mid.idx, start, base, acts, n),
        mid.slots.lets < u32::MAX,
        mid.idx < mid.slots.lets,
        base <= mid.slots.lets,
        stage_value(low, stage, scope, mid) matches Ok(f) && {
            &&& f.slots.lets > mid.slots.lets
            &&& match act {
                Act::Transform(g) => {
                    &&& stage.method == StageMethod::Transform
                    &&& computes(ctx, f.ops, mid.slots.lets, mid.slots.lets + 1, g, n)
                },
                Act::Retain(g) => {
                    &&& stage.method == StageMethod::Retain
                    &&& f.ty == Some(IrType::Bool)
                    &&& computes(ctx, f.ops, mid.slots.lets, mid.slots.lets + 1, g, n)
                },
            }
        },
    ensures
        run_stage(low, stage, range, scope, mid) matches Ok(next) && flows(
            ctx,
            next.ops,
            next.idx,
            start,
            base,
            acts.push(act),
            n,
        ),
{
    let f = stage_value(low, stage, scope, mid)->Ok_0;
    let next = run_stage(low, stage, range, scope, mid)->Ok_0;
    let p = mid.slots.lets;
    let copy = seq![let_get(mid.idx, mid.ty, range), let_set(p, mid.ty, range)];
    let tail = match act {
        Act::Transform(_) => seq![let_set(f.slots.lets, f.ty->0, stage.closure_body.range)],
        Act::Retain(_) => unless(range),
    };
    let g = match act {
        Act::Transform(g) => g,
        Act::Retain(g) => g,
    };
    assert(next.ops =~= mid.ops + (copy + (f.ops + tail)));
    assert(acts.push(act).drop_last() =~= acts);
    assert forall|s: Machine, rounds: nat|
        holds(ctx, s) && s.lets.dom().contains(start) && rounds >= n implies match through(
        acts.push(act),
        s.lets[start],
    ) {
        Passed::Trapped => #[trigger] run(next.ops, s, rounds) == Flow::Trap,
        Passed::Dropped => {
            &&& run(next.ops, s, rounds) matches Flow::Jump(k, t)
            &&& k == 0
            &&& t.stack == s.stack
            &&& same_below(s, t, base)
        },
        Passed::Value(v) => {
            &&& run(next.ops, s, rounds) matches Flow::Next(t)
            &&& t.stack == s.stack
            &&& same_below(s, t, base)
            &&& t.lets.dom().contains(next.idx)
            &&& t.lets[next.idx] == v
        },
    } by {
        lemma_run_concat(mid.ops, copy + (f.ops + tail), 0, s, rounds);
        let before = run(mid.ops, s, rounds);
        if let Passed::Value(v) = through(acts, s.lets[start]) {
            let t = before->Next_0;
            lemma_copied(mid.idx, p, mid.ty, range, f.ops + tail, t, rounds);
            let u = t.with_let(p, v);
            lemma_run_concat(f.ops, tail, 0, u, rounds);
            let inner = run(f.ops, u, rounds);
            assert(same_below(t, u, p as int));
            lemma_same_chain(s, t, u, base, p as int);
            lemma_still_holds(ctx, s, u, base);
            let inside = ctx.insert(p, v);
            assert(holds(inside, u));
            assert(yields(inside, f.ops, p + 1, g(v), n));
            if let Some(w) = g(v) {
                let last = inner->Next_0;
                lemma_same_chain(s, u, last, base, p + 1);
                lemma_pushed_parts(u, last, w);
                let bare = Machine { stack: u.stack, ..last };
                match act {
                    Act::Transform(_) => {
                        let q = f.slots.lets;
                        lemma_transformed(
                            q,
                            f.ty->0,
                            stage.closure_body.range,
                            bare,
                            w,
                            rounds,
                        );
                        assert(same_below(bare, bare.with_let(q, w), q as int));
                        assert(same_below(s, bare, base));
                        lemma_same_chain(s, bare, bare.with_let(q, w), base, q as int);
                    },
                    Act::Retain(_) => {
                        lemma_retained(range, bare, w, rounds);
                        assert(same_below(s, bare, base));
                        assert(u.lets.dom().contains(mid.idx) == last.lets.dom().contains(mid.idx));
                    },
                }
            }
        }
    }
}

/// The emitted stages do to an element what their closures do.
proof fn lemma_stages_flow<L: SubLowering>(
    ctx: Map<u32, int>,
    low: L,
    stages: Seq<ChainStage<'_>>,
    range: TokenRange,
    scope: Scope<'_>,
    st: StageState,
    acts: Seq<Act>,
    n: nat,
)
    requires
        st.ops.len() == 0,
        st.idx < st.slots.lets,
        context_below(ctx, st.slots.lets as int),
        staged(ctx, low, stages, range, scope, st, acts, n),
    ensures
        run_stages(low, stages, range, scope, st) matches Ok(mid) && {
            &&& flows(ctx, mid.ops, mid.idx, st.idx, st.slots.lets as int, acts, n)
            &&& st.slots.lets <= mid.slots.lets
            &&& mid.slots.lets < u32::MAX ==> mid.idx < mid.slots.lets
        },
    decreases stages.len(),
{
    if stages.len() > 0 {
        lemma_stages_flow(ctx, low, stages.drop_last(), range, scope, st, acts.drop_last(), n);
        let mid = run_stages(low, stages.drop_last(), range, scope, st)->Ok_0;
        lemma_stage_flows(
            ctx,
            low,
            stages.last(),
            range,
            scope,
            mid,
            st.idx,
            st.slots.lets as int,
            acts.drop_last(),
            acts.last(),
            n,
        );
        assert(acts.drop_last().push(acts.last()) =~= acts);
    } else {
        assert forall|s: Machine, rounds: nat| #[trigger]
            run(st.ops, s, rounds) == Flow::Next(s) by {}
    }
}

/// The sum of both, where it is a 64-bit integer.
pub open spec fn summing() -> spec_fn(int, int) -> Option<int> {
    |p: int, v: int|
        if fits(v + p) {
            Some(v + p)
        } else {
            None
        }
}

/// One more, where it is a 64-bit integer.
pub open spec fn counting() -> spec_fn(int, int) -> Option<int> {
    |p: int, v: int|
        if fits(p + 1) {
            Some(p + 1)
        } else {
            None
        }
}

/// What one element does to the accumulator: nothing where it is dropped.
pub open spec fn fold_step(acts: Seq<Act>, h: spec_fn(int, int) -> Option<int>) -> spec_fn(
    int,
    int,
) -> Option<int> {
    |p: int, i: int|
        match through(acts, i) {
            Passed::Value(v) => h(p, v),
            Passed::Dropped => Some(p),
            Passed::Trapped => None,
        }
}

/// The code takes the accumulator `p` and the element `v` to `h(p, v)`, or
/// traps where that is `None`; the other slots below `base` stay.
pub open spec fn finishes(
    ctx: Map<u32, int>,
    code: Seq<TaggedOpView>,
    idx: u32,
    acc: u32,
    base: int,
    h: spec_fn(int, int) -> Option<int>,
    n: nat,
) -> bool {
    forall|t: Machine, rounds: nat|
        holds(ctx, t) && t.lets.dom().contains(idx) && t.lets.dom().contains(acc) && rounds
            >= n ==> match h(t.lets[acc], t.lets[idx]) {
            None => #[trigger] run(code, t, rounds) == Flow::Trap,
            Some(w) => {
                &&& run(code, t, rounds) matches Flow::Next(u)
                &&& u.stack == t.stack
                &&& same_below(t.with_let(acc, w), u, base)
            },
        }
}

/// A block alone goes on behind its end.
proof fn lemma_one_block(ops: Seq<TaggedOpView>, range: TokenRange, s: Machine, rounds: nat)
    ensures
        run(seq![block_op(ops, range)], s, rounds) == behind_block(run(ops, s, rounds)),
{
    let code = seq![block_op(ops, range)];
    assert(code[0] == block_op(ops, range));
    assert(step(code[0], s, rounds) == behind_block(run(ops, s, rounds)));
    if let Flow::Next(t) = step(code[0], s, rounds) {
        assert(run_from(code, 1, t, rounds) == Flow::Next(t));
    }
}

/// Stages and consumer are the code of one round.
proof fn lemma_round(
    ctx: Map<u32, int>,
    ops: Seq<TaggedOpView>,
    code: Seq<TaggedOpView>,
    idx: u32,
    start: u32,
    end: u32,
    acc: u32,
    base: int,
    acts: Seq<Act>,
    h: spec_fn(int, int) -> Option<int>,
    range: TokenRange,
    n: nat,
)
    requires
        start < end,
        start < acc,
        end != acc,
        end < base,
        acc < base,
        context_below(ctx, start as int),
        flows(ctx, ops, idx, start, base, acts, n),
        finishes(ctx, code, idx, acc, base, h, n),
    ensures
        rounds_on(
            ctx,
            seq![block_op(ops + code, range)],
            start,
            end,
            acc,
            fold_step(acts, h),
            n,
        ),
{
    let body = seq![block_op(ops + code, range)];
    let f = fold_step(acts, h);
    assert forall|s: Machine, rounds: nat|
        holds(ctx, s) && ready(s, start, end, acc) && rounds >= n implies match f(
        s.lets[acc],
        s.lets[start],
    ) {
        None => #[trigger] run(body, s, rounds) == Flow::Trap,
        Some(v) => {
            &&& run(body, s, rounds) matches Flow::Next(t)
            &&& t.stack == s.stack
            &&& ready(t, start, end, acc)
            &&& t.lets[start] == s.lets[start]
            &&& t.lets[end] == s.lets[end]
            &&& t.lets[acc] == v
            &&& same_below(s, t, start as int)
        },
    } by {
        lemma_run_concat(ops, code, 0, s, rounds);
        lemma_one_block(ops + code, range, s, rounds);
        match through(acts, s.lets[start]) {
            Passed::Trapped => {
                assert(run(ops, s, rounds) == Flow::Trap);
            },
            Passed::Dropped => {
                let t = run(ops, s, rounds)->Jump_1;
                assert(s.lets.dom().contains(start) == t.lets.dom().contains(start));
                assert(s.lets.dom().contains(end) == t.lets.dom().contains(end));
                assert(s.lets.dom().contains(acc) == t.lets.dom().contains(acc));
            },
            Passed::Value(v) => {
                let t = run(ops, s, rounds)->Next_0;
                assert(s.lets.dom().contains(start) == t.lets.dom().contains(start));
                assert(s.lets.dom().contains(end) == t.lets.dom().contains(end));
                assert(s.lets.dom().contains(acc) == t.lets.dom().contains(acc));
                lemma_still_holds(ctx, s, t, base);
                match h(t.lets[acc], v) {
                    None => {
                        assert(run(code, t, rounds) == Flow::Trap);
                    },
                    Some(w) => {
                        let m = t.with_let(acc, w);
                        let u = run(code, t, rounds)->Next_0;
                        assert(m.lets.dom().contains(start) == u.lets.dom().contains(start));
                        assert(m.lets.dom().contains(end) == u.lets.dom().contains(end));
                        assert(m.lets.dom().contains(acc) == u.lets.dom().contains(acc));
                        lemma_same_less(s, t, start as int, base);
                        lemma_same_chain(s, t, m, start as int, start as int);
                        lemma_same_chain(s, m, u, start as int, base);
                    },
                }
            },
        }
    }
}

/// The consumer takes the accumulator and an element to what `h` says: their
/// sum, one more, or what the reducing closure computes.
pub open spec fn combines<L: SubLowering>(
    ctx: Map<u32, int>,
    low: L,
    consumer: RangeConsumer<'_>,
    acc_ty: IrType,
    scope: Scope<'_>,
    st: StageState,
    h: spec_fn(int, int) -> Option<int>,
    n: nat,
) -> bool {
    match consumer {
        RangeConsumer::SumI64 => st.ty == IrType::I64 && h == summing(),
        RangeConsumer::Len => h == counting(),
        RangeConsumer::Reduce { params, body, .. } => {
            let p = st.slots.lets;
            &&& params@.len() == 2
            &&& p + 2 <= u32::MAX
            &&& low.lowered(
                *body,
                scope.with(params@[0].name, p, acc_ty).with(
                    params@[1].name,
                    slot_at(p, 1),
                    st.ty,
                ),
                st.slots.after(2),
            ) matches Ok(f)
            &&& f.ty matches Some(ty)
            &&& ty.slot_spec() == acc_ty.slot_spec()
            &&& computes_of_two(ctx, f.ops, p, slot_at(p, 1), p + 2, h, n)
        },
    }
}

proof fn lemma_sum_finishes(
    ctx: Map<u32, int>,
    idx: u32,
    acc: u32,
    base: int,
    range: TokenRange,
    n: nat,
)
    ensures
        finishes(
            ctx,
            seq![
                let_get(idx, IrType::I64, range),
                let_get(acc, IrType::I64, range),
                sop(SimpleOp::Add(IrType::I64), range),
                let_set(acc, IrType::I64, range),
            ],
            idx,
            acc,
            base,
            summing(),
            n,
        ),
{
    let ty = IrType::I64;
    let code = seq![
        let_get(idx, ty, range),
        let_get(acc, ty, range),
        sop(SimpleOp::Add(ty), range),
        let_set(acc, ty, range),
    ];
    let h = summing();
    assert forall|t: Machine, rounds: nat|
        holds(ctx, t) && t.lets.dom().contains(idx) && t.lets.dom().contains(acc) && rounds
            >= n implies match h(t.lets[acc], t.lets[idx]) {
        None => #[trigger] run(code, t, rounds) == Flow::Trap,
        Some(w) => {
            &&& run(code, t, rounds) matches Flow::Next(u)
            &&& u.stack == t.stack
            &&& same_below(t.with_let(acc, w), u, base)
        },
    } by {
        let v = t.lets[idx];
        let p = t.lets[acc];
        lemma_popped(t, v, p);
        lemma_popped(t, v + p, 0);
        lemma_simple(code, 0, SimpleOp::LetGet { idx, ty }, t, rounds);
        lemma_simple(code, 1, SimpleOp::LetGet { idx: acc, ty }, t.pushed(v), rounds);
        lemma_simple(code, 2, SimpleOp::Add(ty), t.pushed(v).pushed(p), rounds);
        lemma_simple(code, 3, SimpleOp::LetSet { idx: acc, ty }, t.pushed(v + p), rounds);
    }
}

proof fn lemma_len_finishes(
    ctx: Map<u32, int>,
    idx: u32,
    acc: u32,
    base: int,
    range: TokenRange,
    n: nat,
)
    ensures
        finishes(
            ctx,
            seq![
                let_get(acc, IrType::I64, range),
                sop(SimpleOp::ConstI64(1), range),
                sop(SimpleOp::Add(IrType::I64), range),
                let_set(acc, IrType::I64, range),
            ],
            idx,
            acc,
            base,
            counting(),
            n,
        ),
{
    let ty = IrType::I64;
    let code = seq![
        let_get(acc, ty, range),
        sop(SimpleOp::ConstI64(1), range),
        sop(SimpleOp::Add(ty), range),
        let_set(acc, ty, range),
    ];
    let h = counting();
    assert forall|t: Machine, rounds: nat|
        holds(ctx, t) && t.lets.dom().contains(idx) && t.lets.dom().contains(acc) && rounds
            >= n implies match h(t.lets[acc], t.lets[idx]) {
        None => #[trigger] run(code, t, rounds) == Flow::Trap,
        Some(w) => {
            &&& run(code, t, rounds) matches Flow::Next(u)
            &&& u.stack == t.stack
            &&& same_below(t.with_let(acc, w), u, base)
        },
    } by {
        let p = t.lets[acc];
        lemma_popped(t, p, 1);
        lemma_popped(t, p + 1, 0);
        lemma_simple(code, 0, SimpleOp::LetGet { idx: acc, ty }, t, rounds);
        lemma_simple(code, 1, SimpleOp::ConstI64(1), t.pushed(p), rounds);
        lemma_simple(code, 2, SimpleOp::Add(ty), t.pushed(p).pushed(1), rounds);
        lemma_simple(code, 3, SimpleOp::LetSet { idx: acc, ty }, t.pushed(p + 1), rounds);
    }
}

/// The accumulator and the element go into the slots of the two parameters,
/// and the value of the closure becomes the accumulator.
pub open spec fn reducing_code(
    inner: Seq<TaggedOpView>,
    idx: u32,
    ty: IrType,
    acc: u32,
    acc_ty: IrType,
    p: u32,
    e: u32,
    range: TokenRange,
) -> Seq<TaggedOpView> {
    seq![let_get(acc, acc_ty, range), let_set(p, acc_ty, range)] + (seq![
        let_get(idx, ty, range),
        let_set(e, ty, range),
    ] + (inner + seq![let_set(acc, acc_ty, range)]))
}

proof fn lemma_reduce_finishes(
    ctx: Map<u32, int>,
    inner: Seq<TaggedOpView>,
    idx: u32,
    ty: IrType,
    acc: u32,
    acc_ty: IrType,
    p: u32,
    e: u32,
    base: int,
    h: spec_fn(int, int) -> Option<int>,
    range: TokenRange,
    n: nat,
)
    requires
        acc < base <= p,
        idx < p < e,
        context_below(ctx, base),
        computes_of_two(ctx, inner, p, e, e + 1, h, n),
    ensures
        finishes(
            ctx,
            reducing_code(inner, idx, ty, acc, acc_ty, p, e, range),
            idx,
            acc,
            base,
            h,
            n,
        ),
{
    let code = reducing_code(inner, idx, ty, acc, acc_ty, p, e, range);
    let tail = seq![let_set(acc, acc_ty, range)];
    assert forall|t: Machine, rounds: nat|
        holds(ctx, t) && t.lets.dom().contains(idx) && t.lets.dom().contains(acc) && rounds
            >= n implies match h(t.lets[acc], t.lets[idx]) {
        None => #[trigger] run(code, t, rounds) == Flow::Trap,
        Some(w) => {
            &&& run(code, t, rounds) matches Flow::Next(u)
            &&& u.stack == t.stack
            &&& same_below(t.with_let(acc, w), u, base)
        },
    } by {
        let a = t.lets[acc];
        let v = t.lets[idx];
        let t1 = t.with_let(p, a);
        let t2 = t1.with_let(e, v);
        let second = seq![let_get(idx, ty, range), let_set(e, ty, range)];
        lemma_copied(acc, p, acc_ty, range, second + (inner + tail), t, rounds);
        lemma_copied(idx, e, ty, range, inner + tail, t1, rounds);
        lemma_run_concat(inner, tail, 0, t2, rounds);
        let inside = ctx.insert(p, a).insert(e, v);
        assert(holds(inside, t2)) by {
            assert(same_below(t, t2, base));
            lemma_still_holds(ctx, t, t2, base);
        }
        assert(yields(inside, inner, e + 1, h(a, v), n));
        match h(a, v) {
            None => {
                assert(run(inner, t2, rounds) == Flow::Trap);
            },
            Some(w) => {
                let t3 = run(inner, t2, rounds)->Next_0;
                lemma_pushed_parts(t2, t3, w);
                let bare = Machine { stack: t2.stack, ..t3 };
                lemma_transformed(acc, acc_ty, range, bare, w, rounds);
                let u = bare.with_let(acc, w);
                let m = t.with_let(acc, w);
                assert forall|slot: u32| slot < base implies (#[trigger] m.lets.dom().contains(slot)
                    == u.lets.dom().contains(slot) && m.lets[slot] == u.lets[slot]) by {
                    assert(t2.lets.dom().contains(slot) == t3.lets.dom().contains(slot));
                }
            },
        }
    }
}

/// The consumer ends one round.
proof fn lemma_consumer_finishes<L: SubLowering>(
    ctx: Map<u32, int>,
    low: L,
    consumer: RangeConsumer<'_>,
    acc: u32,
    acc_ty: IrType,
    range: TokenRange,
    scope: Scope<'_>,
    st: StageState,
    start: u32,
    end: u32,
    base: int,
    acts: Seq<Act>,
    h: spec_fn(int, int) -> Option<int>,
    n: nat,
)
    requires
        start < end < acc < base <= st.slots.lets,
        st.slots.lets < u32::MAX ==> st.idx < st.slots.lets,
        context_below(ctx, start as int),
        flows(ctx, st.ops, st.idx, start, base, acts, n),
        combines(ctx, low, consumer, acc_ty, scope, st, h, n),
    ensures
        run_consumer(low, consumer, acc, acc_ty, range, scope, st) matches Ok(last) && rounds_on(
            ctx,
            seq![block_op(last.ops, range)],
            start,
            end,
            acc,
            fold_step(acts, h),
            n,
        ),
{
    let last = run_consumer(low, consumer, acc, acc_ty, range, scope, st)->Ok_0;
    let code = match consumer {
        RangeConsumer::SumI64 => {
            lemma_sum_finishes(ctx, st.idx, acc, base, range, n);
            seq![
                let_get(st.idx, IrType::I64, range),
                let_get(acc, IrType::I64, range),
                sop(SimpleOp::Add(IrType::I64), range),
                let_set(acc, IrType::I64, range),
            ]
        },
        RangeConsumer::Len => {
            lemma_len_finishes(ctx, st.idx, acc, base, range, n);
            seq![
                let_get(acc, IrType::I64, range),
                sop(SimpleOp::ConstI64(1), range),
                sop(SimpleOp::Add(IrType::I64), range),
                let_set(acc, IrType::I64, range),
            ]
        },
        RangeConsumer::Reduce { params, body, .. } => {
            let p = st.slots.lets;
            let e = slot_at(p, 1);
            let f = low.lowered(
                *body,
                scope.with(params@[0].name, p, acc_ty).with(params@[1].name, e, st.ty),
                st.slots.after(2),
            )->Ok_0;
            lemma_reduce_finishes(
                ctx,
                f.ops,
                st.idx,
                st.ty,
                acc,
                acc_ty,
                p,
                e,
                base,
                h,
                range,
                n,
            );
            reducing_code(f.ops, st.idx, st.ty, acc, acc_ty, p, e, range)
        },
    };
    assert(last.ops =~= st.ops + code);
    lemma_round(ctx, st.ops, code, st.idx, start, end, acc, base, acts, h, range, n);
}

/// The state before the first stage of a pipeline.
pub open spec fn unstaged(at: SlotsView, slots: SlotsView) -> StageState {
    StageState { ops: Seq::empty(), idx: at.lets, ty: IrType::I64, slots }
}

/// The parts of a pipeline mean what they are said to: the bounds are `a` and
/// `b`, the first accumulator is `z`, the stages do what `acts` says, and the
/// consumer what `h` says.
pub open spec fn pipeline_means<L: SubLowering>(
    ctx: Map<u32, int>,
    low: L,
    args: Seq<CallArg>,
    stages: Seq<ChainStage<'_>>,
    consumer: RangeConsumer<'_>,
    range: TokenRange,
    scope: Scope<'_>,
    at: SlotsView,
    a: int,
    b: int,
    z: int,
    acts: Seq<Act>,
    h: spec_fn(int, int) -> Option<int>,
    n: nat,
) -> bool {
    let base = at.lets + 3;
    &&& base <= u32::MAX
    &&& context_below(ctx, at.lets as int)
    &&& fits(a)
    &&& fits(b)
    &&& start_value(low, args, range, scope, at.after(3)) matches Ok(lo)
    &&& yields(ctx, lo.ops, base, Some(a), n)
    &&& end_value(low, args, range, scope, lo.slots) matches Ok(hi)
    &&& yields(ctx, hi.ops, base, Some(b), n)
    &&& seed_value(low, consumer, range, scope, hi.slots) matches Ok(seed)
    &&& yields(ctx, seed.ops, base, Some(z), n)
    &&& seed.slots.lets >= base
    &&& staged(ctx, low, stages, range, scope, unstaged(at, seed.slots), acts, n)
    &&& run_stages(low, stages, range, scope, unstaged(at, seed.slots)) matches Ok(mid)
    &&& combines(ctx, low, consumer, seed.ty->0, scope, mid, h, n)
}

/// A computed value goes into a slot.
pub proof fn lemma_stored(
    ctx: Map<u32, int>,
    code: Seq<TaggedOpView>,
    target: u32,
    ty: IrType,
    range: TokenRange,
    rest: Seq<TaggedOpView>,
    base: int,
    v: int,
    n: nat,
    s: Machine,
    rounds: nat,
) -> (t: Machine)
    requires
        target < base,
        rounds >= n,
        holds(ctx, s),
        context_below(ctx, target as int),
        yields(ctx, code, base, Some(v), n),
    ensures
        holds(ctx, t),
        run(code.push(let_set(target, ty, range)) + rest, s, rounds) == run(rest, t, rounds),
        t.stack == s.stack,
        same_below(s.with_let(target, v), t, base),
{
    let tail = seq![let_set(target, ty, range)];
    assert(code.push(let_set(target, ty, range)) + rest =~= code + (tail + rest));
    lemma_run_concat(code, tail + rest, 0, s, rounds);
    let u = run(code, s, rounds)->Next_0;
    lemma_pushed_parts(s, u, v);
    let bare = Machine { stack: s.stack, ..u };
    lemma_run_concat(tail, rest, 0, u, rounds);
    lemma_transformed(target, ty, range, bare, v, rounds);
    let t = bare.with_let(target, v);
    let m = s.with_let(target, v);
    assert forall|slot: u32| slot < base implies (#[trigger] m.lets.dom().contains(slot)
        == t.lets.dom().contains(slot) && m.lets[slot] == t.lets[slot]) by {
        assert(s.lets.dom().contains(slot) == u.lets.dom().contains(slot));
    }
    assert(same_below(m, t, base));
    assert(same_below(s, m, target as int));
    lemma_same_chain(s, m, t, target as int, base);
    lemma_still_holds(ctx, s, t, target as int);
    t
}

/// A pipeline over a range pushes the fold of its consumer over the elements
/// from the first bound up to the second, each behind the stages; it traps
/// where a step does. Every slot that was set before it stays.
pub proof fn law_pipeline_folds<L: SubLowering>(
    ctx: Map<u32, int>,
    low: L,
    args: Seq<CallArg>,
    stages: Seq<ChainStage<'_>>,
    consumer: RangeConsumer<'_>,
    range: TokenRange,
    scope: Scope<'_>,
    at: SlotsView,
    a: int,
    b: int,
    z: int,
    acts: Seq<Act>,
    h: spec_fn(int, int) -> Option<int>,
    n: nat,
)
    requires
        pipeline_means(ctx, low, args, stages, consumer, range, scope, at, a, b, z, acts, h, n),
    ensures
        pipeline_fragment(low, args, stages, consumer, range, scope, at) matches Ok(f) && yields(
            ctx,
            f.ops,
            at.lets as int,
            folded(fold_step(acts, h), z, a, b),
            n + 1 + span(a, b),
        ),
{
    let start = at.lets;
    let end = slot_at(at.lets, 1);
    let acc = slot_at(at.lets, 2);
    let base = at.lets + 3;
    let lo = start_value(low, args, range, scope, at.after(3))->Ok_0;
    let hi = end_value(low, args, range, scope, lo.slots)->Ok_0;
    let seed = seed_value(low, consumer, range, scope, hi.slots)->Ok_0;
    let acc_ty = seed.ty->0;
    let first = unstaged(at, seed.slots);
    lemma_stages_flow(ctx, low, stages, range, scope, first, acts, n);
    let mid = run_stages(low, stages, range, scope, first)->Ok_0;
    lemma_flows_below(ctx, mid.ops, mid.idx, start, base, first.slots.lets as int, acts, n);
    lemma_consumer_finishes(
        ctx,
        low,
        consumer,
        acc,
        acc_ty,
        range,
        scope,
        mid,
        start,
        end,
        base,
        acts,
        h,
        n,
    );
    let last = run_consumer(low, consumer, acc, acc_ty, range, scope, mid)->Ok_0;
    let f = pipeline_fragment(low, args, stages, consumer, range, scope, at)->Ok_0;
    let step_fn = fold_step(acts, h);
    let outcome = folded(step_fn, z, a, b);
    let code = pipeline_loop(start, end, last.ops, range);
    let read = let_get(acc, acc_ty, range);
    let tail = seq![code, read];
    let from_seed = seed.ops.push(let_set(acc, acc_ty, range)) + tail;
    let from_end = hi.ops.push(let_set(end, IrType::I64, range)) + from_seed;
    assert(f.ops =~= lo.ops.push(let_set(start, IrType::I64, range)) + from_end);
    assert forall|s: Machine, rounds: nat|
        holds(ctx, s) && rounds >= n + 1 + span(a, b) implies match outcome {
        None => #[trigger] run(f.ops, s, rounds) == Flow::Trap,
        Some(x) => {
            &&& run(f.ops, s, rounds) matches Flow::Next(t)
            &&& t.stack == s.stack.push(x)
            &&& same_below(s, t, at.lets as int)
        },
    } by {
        let t1 = lemma_stored(
            ctx,
            lo.ops,
            start,
            IrType::I64,
            range,
            from_end,
            base,
            a,
            n,
            s,
            rounds,
        );
        let t2 = lemma_stored(
            ctx,
            hi.ops,
            end,
            IrType::I64,
            range,
            from_seed,
            base,
            b,
            n,
            t1,
            rounds,
        );
        let t3 = lemma_stored(ctx, seed.ops, acc, acc_ty, range, tail, base, z, n, t2, rounds);
        lemma_prologue(s, t1, t2, t3, start, end, acc, a, b, z);
        lemma_loop_read(ctx, start, end, acc, acc_ty, last.ops, step_fn, n, range, t3, rounds);
        assert(run(f.ops, s, rounds) == run(tail, t3, rounds));
        if outcome is Some {
            let t4 = run(tail, t3, rounds)->Next_0;
            lemma_same_chain(s, t3, t4, at.lets as int, at.lets as int);
        }
    }
}

/// The loop, and its accumulator pushed.
proof fn lemma_loop_read(
    ctx: Map<u32, int>,
    start: u32,
    end: u32,
    acc: u32,
    acc_ty: IrType,
    iteration: Seq<TaggedOpView>,
    f: spec_fn(int, int) -> Option<int>,
    n: nat,
    range: TokenRange,
    s: Machine,
    rounds: nat,
)
    requires
        start < end,
        start < acc,
        end != acc,
        context_below(ctx, start as int),
        rounds_on(ctx, seq![block_op(iteration, range)], start, end, acc, f, n),
        holds(ctx, s),
        ready(s, start, end, acc),
        rounds > n,
        rounds > n + s.lets[end] - s.lets[start],
    ensures
        ({
            let tail = seq![
                pipeline_loop(start, end, iteration, range),
                let_get(acc, acc_ty, range),
            ];
            match folded(f, s.lets[acc], s.lets[start], s.lets[end]) {
                None => run(tail, s, rounds) == Flow::Trap,
                Some(v) => {
                    &&& run(tail, s, rounds) matches Flow::Next(t)
                    &&& t.stack == s.stack.push(v)
                    &&& same_below(s, t, start as int)
                },
            }
        }),
{
    let code = pipeline_loop(start, end, iteration, range);
    let tail = seq![code, let_get(acc, acc_ty, range)];
    let one = seq![block_op(iteration, range)];
    law_loop_folds(ctx, start, end, acc, one, f, n, range, s, rounds);
    assert(round_body(start, end, one, range) =~= exit_guard(
        start,
        end,
        IrType::I64,
        1,
        range,
    ).push(block_op(iteration, range)) + step_and_loop(start, range));
    assert(tail[0] == code);
    if let Flow::Next(t) = step(code, s, rounds) {
        assert(run(tail, s, rounds) == run_from(tail, 1, t, rounds));
        if t.lets.dom().contains(acc) {
            lemma_simple(tail, 1, SimpleOp::LetGet { idx: acc, ty: acc_ty }, t, rounds);
            assert(run_from(tail, 2, t.pushed(t.lets[acc]), rounds) == Flow::Next(
                t.pushed(t.lets[acc]),
            ));
        }
    }
}

/// How many elements a range has.
pub open spec fn span(a: int, b: int) -> nat {
    if a < b {
        (b - a) as nat
    } else {
        0
    }
}

/// The three slots of a loop are set one after the other.
pub proof fn lemma_prologue(
    s: Machine,
    t1: Machine,
    t2: Machine,
    t3: Machine,
    start: u32,
    end: u32,
    acc: u32,
    a: int,
    b: int,
    z: int,
)
    requires
        end == start + 1,
        acc == start + 2,
        fits(a),
        fits(b),
        same_below(s.with_let(start, a), t1, start + 3),
        same_below(t1.with_let(end, b), t2, start + 3),
        same_below(t2.with_let(acc, z), t3, start + 3),
    ensures
        ready(t3, start, end, acc),
        t3.lets[start] == a,
        t3.lets[end] == b,
        t3.lets[acc] == z,
        same_below(s, t3, start as int),
{
    let m = s.with_let(start, a).with_let(end, b).with_let(acc, z);
    assert forall|slot: u32| slot < start + 3 implies (#[trigger] m.lets.dom().contains(slot)
        == t3.lets.dom().contains(slot) && m.lets[slot] == t3.lets[slot]) by {
        assert(s.with_let(start, a).lets.dom().contains(slot) == t1.lets.dom().contains(slot));
        assert(t1.with_let(end, b).lets.dom().contains(slot) == t2.lets.dom().contains(slot));
        assert(t2.with_let(acc, z).lets.dom().contains(slot) == t3.lets.dom().contains(slot));
    }
    assert(m.lets.dom().contains(start) && m.lets.dom().contains(end) && m.lets.dom().contains(
        acc,
    ));
    assert forall|slot: u32| slot < start implies (#[trigger] s.lets.dom().contains(slot)
        == t3.lets.dom().contains(slot) && s.lets[slot] == t3.lets[slot]) by {
        assert(m.lets.dom().contains(slot) == t3.lets.dom().contains(slot));
    }
}

/// Code that keeps more slots keeps fewer.
proof fn lemma_flows_below(
    ctx: Map<u32, int>,
    ops: Seq<TaggedOpView>,
    idx: u32,
    start: u32,
    base: int,
    more: int,
    acts: Seq<Act>,
    n: nat,
)
    requires
        base <= more,
        flows(ctx, ops, idx, start, more, acts, n),
    ensures
        flows(ctx, ops, idx, start, base, acts, n),
{
}

/// How many elements from `a` up to `b` come through the stages.
pub open spec fn survivors(acts: Seq<Act>, a: int, b: int) -> nat
    decreases b - a,
{
    if a >= b {
        0
    } else {
        survivors(acts, a + 1, b) + if through(acts, a) is Value {
            1nat
        } else {
            0
        }
    }
}

proof fn lemma_counted(acts: Seq<Act>, p: int, a: int, b: int)
    requires
        0 <= p,
        fits(p),
        forall|i: int| a <= i < b ==> #[trigger] through(acts, i) !is Trapped,
    ensures
        folded(fold_step(acts, counting()), p, a, b) == if fits(p + survivors(acts, a, b)) {
            Some(p + survivors(acts, a, b))
        } else {
            None
        },
    decreases b - a,
{
    if a < b {
        assert(through(acts, a) !is Trapped);
        match through(acts, a) {
            Passed::Value(_) => {
                if fits(p + 1) {
                    lemma_counted(acts, p + 1, a + 1, b);
                }
            },
            _ => {
                lemma_counted(acts, p, a + 1, b);
            },
        }
    }
}

/// The length of a pipeline is the number of elements that come through its
/// stages, where none of them traps.
pub proof fn law_len_counts_survivors(acts: Seq<Act>, a: int, b: int)
    requires
        forall|i: int| a <= i < b ==> #[trigger] through(acts, i) !is Trapped,
    ensures
        folded(fold_step(acts, counting()), 0, a, b) == if fits(survivors(acts, a, b) as int) {
            Some(survivors(acts, a, b) as int)
        } else {
            None
        },
{
    lemma_counted(acts, 0, a, b);
}

proof fn lemma_all_survive(a: int, b: int)
    ensures
        survivors(Seq::empty(), a, b) == span(a, b),
    decreases b - a,
{
    if a < b {
        lemma_all_survive(a + 1, b);
    }
}

proof fn lemma_summed(p: int, a: int, b: int)
    ensures
        folded(fold_step(Seq::empty(), summing()), p, a, b) matches Some(v) ==> 2 * (v - p) == span(
            a,
            b,
        ) * (a + b - 1),
    decreases b - a,
{
    if a < b {
        lemma_summed(p + a, a + 1, b);
        assert(2 * a + (b - a - 1) * (a + 1 + b - 1) == (b - a) * (a + b - 1)) by (
            nonlinear_arith);
    }
}

/// A bare range needs no list: its length and its sum are those of the integers
/// from the first bound up to the second. Both are zero where the range is
/// empty, and the code traps where the value leaves the 64-bit integers.
pub proof fn law_bare_range_is_counted_and_summed<L: SubLowering>(
    ctx: Map<u32, int>,
    low: L,
    args: Seq<CallArg>,
    range: TokenRange,
    scope: Scope<'_>,
    at: SlotsView,
    a: int,
    b: int,
    n: nat,
)
    requires
        at.lets + 3 <= u32::MAX,
        context_below(ctx, at.lets as int),
        fits(a),
        fits(b),
        start_value(low, args, range, scope, at.after(3)) matches Ok(lo) && {
            &&& yields(ctx, lo.ops, at.lets + 3, Some(a), n)
            &&& end_value(low, args, range, scope, lo.slots) matches Ok(hi)
            &&& yields(ctx, hi.ops, at.lets + 3, Some(b), n)
            &&& hi.slots.lets >= at.lets + 3
        },
    ensures
        ({
            let count = if fits(span(a, b) as int) {
                Some(span(a, b) as int)
            } else {
                None
            };
            &&& pipeline_fragment(
                low,
                args,
                Seq::empty(),
                RangeConsumer::Len,
                range,
                scope,
                at,
            ) matches Ok(f)
            &&& yields(ctx, f.ops, at.lets as int, count, n + 1 + span(a, b))
        }),
        ({
            let total = folded(fold_step(Seq::empty(), summing()), 0, a, b);
            &&& pipeline_fragment(
                low,
                args,
                Seq::empty(),
                RangeConsumer::SumI64,
                range,
                scope,
                at,
            ) matches Ok(f)
            &&& yields(ctx, f.ops, at.lets as int, total, n + 1 + span(a, b))
            &&& total matches Some(v) ==> 2 * v == span(a, b) * (a + b - 1)
        }),
{
    let none = Seq::<ChainStage<'_>>::empty();
    let acts = Seq::<Act>::empty();
    let zero = seq![sop(SimpleOp::ConstI64(0), range)];
    assert forall|s: Machine, rounds: nat| #[trigger]
        run(zero, s, rounds) == Flow::Next(s.pushed(0)) by {
        lemma_simple(zero, 0, SimpleOp::ConstI64(0), s, rounds);
    }
    assert(yields(ctx, zero, at.lets + 3, Some(0), n));
    law_pipeline_folds(
        ctx,
        low,
        args,
        none,
        RangeConsumer::Len,
        range,
        scope,
        at,
        a,
        b,
        0,
        acts,
        counting(),
        n,
    );
    law_pipeline_folds(
        ctx,
        low,
        args,
        none,
        RangeConsumer::SumI64,
        range,
        scope,
        at,
        a,
        b,
        0,
        acts,
        summing(),
        n,
    );
    law_len_counts_survivors(acts, a, b);
    lemma_all_survive(a, b);
    lemma_summed(0, a, b);
}

} // verus!

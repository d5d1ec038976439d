//! What a reduction over a range of rows computes: every row is folded, and the
//! rows are combined, without a list of either.

use vstd::prelude::*;

use crate::ast::{Node, Operator, TokenRange};
use crate::chain::{combine_op, NestedRangeShape, OuterCombine, RowFold};
use crate::fragment::{int_top, let_get, let_set, slot_at, Scope, SlotsView, SubLowering};
use crate::ir::{sop, IrType, SimpleOp, TaggedOpView};
use crate::meaning::{
    context_below, fits, folded, holds, law_loop_folds, lemma_popped, lemma_run_concat,
    lemma_same_chain, lemma_simple, lemma_still_holds, ready, round_body, rounds_on, run, run_from,
    same_below, step, Flow, Machine,
};
use crate::meaning_pipeline::{
    computes, computes_of_two, finishes, lemma_copied, lemma_prologue, lemma_pushed_parts,
    lemma_stored, lemma_transformed, span, summing, yields,
};
use crate::range_loop::{
    add_cell, combine_operands, end_value, exit_guard, loop_op, nested_fragment, row_fragment,
    row_seed, row_step, start_value, step_and_loop,
};

verus! {

/// What a cell does to the accumulator of its row.
pub open spec fn cell_step(
    cell: spec_fn(int) -> Option<int>,
    h: spec_fn(int, int) -> Option<int>,
) -> spec_fn(int, int) -> Option<int> {
    |p: int, j: int|
        match cell(j) {
            None => None,
            Some(w) => h(p, w),
        }
}

/// The update of the row's accumulator is what `h` says: the sum, or what the
/// reducing closure computes.
pub open spec fn row_combines<L: SubLowering>(
    ctx: Map<u32, int>,
    low: L,
    fold: RowFold<'_>,
    cell: u32,
    scope: Scope<'_>,
    at: SlotsView,
    h: spec_fn(int, int) -> Option<int>,
    n: nat,
) -> bool {
    match fold {
        RowFold::Sum => h == summing(),
        RowFold::Reduce { acc_param, cell_param, body, .. } => {
            &&& at.lets < u32::MAX
            &&& cell < at.lets
            &&& int_top(
                low.lowered(
                    *body,
                    scope.with(acc_param.name, at.lets, IrType::I64).with(
                        cell_param.name,
                        cell,
                        IrType::I64,
                    ),
                    at.after(1),
                ),
                body.range,
            ) matches Ok(f)
            &&& computes_of_two(ctx, f.ops, at.lets, cell, at.lets + 1, h, n)
        },
    }
}

/// The parts of a row mean what they are said to: its bounds are `a` and `b`,
/// its first accumulator is `z`, the cells are what `cell` says, and their fold
/// is what `h` says.
pub open spec fn row_means<L: SubLowering>(
    ctx: Map<u32, int>,
    low: L,
    shape: NestedRangeShape<'_>,
    fold: RowFold<'_>,
    range: TokenRange,
    scope: Scope<'_>,
    at: SlotsView,
    a: int,
    b: int,
    z: int,
    cell: spec_fn(int) -> Option<int>,
    h: spec_fn(int, int) -> Option<int>,
    n: nat,
) -> bool {
    let base = at.lets + 3;
    &&& base <= u32::MAX
    &&& context_below(ctx, at.lets as int)
    &&& fits(a)
    &&& fits(b)
    &&& start_value(low, shape.inner_range_args@, range, scope, at.after(3)) matches Ok(lo)
    &&& yields(ctx, lo.ops, base, Some(a), n)
    &&& end_value(low, shape.inner_range_args@, range, scope, lo.slots) matches Ok(hi)
    &&& yields(ctx, hi.ops, base, Some(b), n)
    &&& row_seed(low, fold, range, scope, hi.slots) matches Ok(seed)
    &&& yields(ctx, seed.ops, base, Some(z), n)
    &&& base <= seed.slots.lets < u32::MAX
    &&& int_top(
        low.lowered(
            *shape.cell_body,
            scope.with(shape.inner_param.name, seed.slots.lets, IrType::I64),
            seed.slots.after(1),
        ),
        shape.cell_body.range,
    ) matches Ok(c)
    &&& computes(ctx, c.ops, seed.slots.lets, seed.slots.lets + 1, cell, n)
    &&& seed.slots.lets < c.slots.lets < u32::MAX
    &&& row_combines(ctx, low, fold, c.slots.lets, scope, c.slots.after(1), h, n)
}

proof fn lemma_sum_absorbs(
    ctx: Map<u32, int>,
    cell: u32,
    acc: u32,
    base: int,
    range: TokenRange,
    n: nat,
)
    ensures
        finishes(ctx, add_cell(acc, cell, range), cell, acc, base, summing(), n),
{
    let ty = IrType::I64;
    let code = add_cell(acc, cell, range);
    let h = summing();
    assert forall|t: Machine, rounds: nat|
        holds(ctx, t) && t.lets.dom().contains(cell) && t.lets.dom().contains(acc) && rounds
            >= n implies match h(t.lets[acc], t.lets[cell]) {
        None => #[trigger] run(code, t, rounds) == Flow::Trap,
        Some(w) => {
            &&& run(code, t, rounds) matches Flow::Next(u)
            &&& u.stack == t.stack
            &&& same_below(t.with_let(acc, w), u, base)
        },
    } by {
        let p = t.lets[acc];
        let v = t.lets[cell];
        lemma_popped(t, p, v);
        lemma_popped(t, p + v, 0);
        lemma_simple(code, 0, SimpleOp::LetGet { idx: acc, ty }, t, rounds);
        lemma_simple(code, 1, SimpleOp::LetGet { idx: cell, ty }, t.pushed(p), rounds);
        lemma_simple(code, 2, SimpleOp::Add(ty), t.pushed(p).pushed(v), rounds);
        lemma_simple(code, 3, SimpleOp::LetSet { idx: acc, ty }, t.pushed(p + v), rounds);
    }
}

proof fn lemma_reduce_absorbs(
    ctx: Map<u32, int>,
    inner: Seq<TaggedOpView>,
    cell: u32,
    acc: u32,
    p: u32,
    base: int,
    h: spec_fn(int, int) -> Option<int>,
    range: TokenRange,
    n: nat,
)
    requires
        acc < base <= p,
        cell < p,
        context_below(ctx, base),
        computes_of_two(ctx, inner, p, cell, p + 1, h, n),
    ensures
        finishes(
            ctx,
            (seq![let_get(acc, IrType::I64, range), let_set(p, IrType::I64, range)] + inner).push(
                let_set(acc, IrType::I64, range),
            ),
            cell,
            acc,
            base,
            h,
            n,
        ),
{
    let ty = IrType::I64;
    let head = seq![let_get(acc, ty, range), let_set(p, ty, range)];
    let tail = seq![let_set(acc, ty, range)];
    let code = (head + inner).push(let_set(acc, ty, range));
    assert(code =~= head + (inner + tail));
    assert forall|t: Machine, rounds: nat|
        holds(ctx, t) && t.lets.dom().contains(cell) && t.lets.dom().contains(acc) && rounds
            >= n implies match h(t.lets[acc], t.lets[cell]) {
        None => #[trigger] run(code, t, rounds) == Flow::Trap,
        Some(w) => {
            &&& run(code, t, rounds) matches Flow::Next(u)
            &&& u.stack == t.stack
            &&& same_below(t.with_let(acc, w), u, base)
        },
    } by {
        let a = t.lets[acc];
        let v = t.lets[cell];
        let t1 = t.with_let(p, a);
        lemma_copied(acc, p, ty, range, inner + tail, t, rounds);
        lemma_run_concat(inner, tail, 0, t1, rounds);
        let inside = ctx.insert(p, a).insert(cell, v);
        assert(holds(inside, t1)) by {
            assert(same_below(t, t1, base));
            lemma_still_holds(ctx, t, t1, base);
        }
        assert(yields(inside, inner, p + 1, h(a, v), n));
        match h(a, v) {
            None => {
                assert(run(inner, t1, rounds) == Flow::Trap);
            },
            Some(w) => {
                let t2 = run(inner, t1, rounds)->Next_0;
                lemma_pushed_parts(t1, t2, w);
                let bare = Machine { stack: t1.stack, ..t2 };
                lemma_transformed(acc, ty, range, bare, w, rounds);
                let u = bare.with_let(acc, w);
                let m = t.with_let(acc, w);
                assert forall|slot: u32| slot < base implies (#[trigger] m.lets.dom().contains(slot)
                    == u.lets.dom().contains(slot) && m.lets[slot] == u.lets[slot]) by {
                    assert(t1.lets.dom().contains(slot) == t2.lets.dom().contains(slot));
                }
            },
        }
    }
}

/// The code of one cell: the counter goes into the slot of the parameter, the
/// cell into its own, and then into the accumulator.
pub open spec fn cell_code(
    start: u32,
    y: u32,
    cell: Seq<TaggedOpView>,
    c: u32,
    place: TokenRange,
    absorb: Seq<TaggedOpView>,
    range: TokenRange,
) -> Seq<TaggedOpView> {
    seq![let_get(start, IrType::I64, range), let_set(y, IrType::I64, range)] + (cell + (seq![
        let_set(c, IrType::I64, place),
    ] + absorb))
}

proof fn lemma_cell_round(
    ctx: Map<u32, int>,
    start: u32,
    end: u32,
    acc: u32,
    y: u32,
    cell_ops: Seq<TaggedOpView>,
    c: u32,
    place: TokenRange,
    absorb: Seq<TaggedOpView>,
    range: TokenRange,
    cell: spec_fn(int) -> Option<int>,
    h: spec_fn(int, int) -> Option<int>,
    n: nat,
)
    requires
        start < end < acc < y < c,
        context_below(ctx, start as int),
        computes(ctx, cell_ops, y, y + 1, cell, n),
        finishes(ctx, absorb, c, acc, y as int, h, n),
    ensures
        rounds_on(
            ctx,
            cell_code(start, y, cell_ops, c, place, absorb, range),
            start,
            end,
            acc,
            cell_step(cell, h),
            n,
        ),
{
    let ty = IrType::I64;
    let code = cell_code(start, y, cell_ops, c, place, absorb, range);
    let store = seq![let_set(c, ty, place)];
    let f = cell_step(cell, h);
    assert forall|s: Machine, rounds: nat|
        holds(ctx, s) && ready(s, start, end, acc) && rounds >= n implies match f(
        s.lets[acc],
        s.lets[start],
    ) {
        None => #[trigger] run(code, s, rounds) == Flow::Trap,
        Some(v) => {
            &&& run(code, s, rounds) matches Flow::Next(t)
            &&& t.stack == s.stack
            &&& ready(t, start, end, acc)
            &&& t.lets[start] == s.lets[start]
            &&& t.lets[end] == s.lets[end]
            &&& t.lets[acc] == v
            &&& same_below(s, t, start as int)
        },
    } by {
        let j = s.lets[start];
        let s1 = s.with_let(y, j);
        lemma_copied(start, y, ty, range, cell_ops + (store + absorb), s, rounds);
        lemma_run_concat(cell_ops, store + absorb, 0, s1, rounds);
        let inside = ctx.insert(y, j);
        assert(holds(inside, s1));
        assert(yields(inside, cell_ops, y + 1, cell(j), n));
        match cell(j) {
            None => {
                assert(run(cell_ops, s1, rounds) == Flow::Trap);
            },
            Some(w) => {
                let s2 = run(cell_ops, s1, rounds)->Next_0;
                lemma_pushed_parts(s1, s2, w);
                let bare = Machine { stack: s1.stack, ..s2 };
                lemma_run_concat(store, absorb, 0, s2, rounds);
                lemma_transformed(c, ty, place, bare, w, rounds);
                let s3 = bare.with_let(c, w);
                assert(same_below(s, s3, y as int)) by {
                    assert forall|slot: u32| slot < y implies (#[trigger] s.lets.dom().contains(
                        slot,
                    ) == s3.lets.dom().contains(slot) && s.lets[slot] == s3.lets[slot]) by {
                        assert(s1.lets.dom().contains(slot) == s2.lets.dom().contains(slot));
                    }
                }
                lemma_still_holds(ctx, s, s3, start as int);
                assert(s.lets.dom().contains(start) == s3.lets.dom().contains(start));
                assert(s.lets.dom().contains(end) == s3.lets.dom().contains(end));
                assert(s.lets.dom().contains(acc) == s3.lets.dom().contains(acc));
                match h(s3.lets[acc], w) {
                    None => {
                        assert(run(absorb, s3, rounds) == Flow::Trap);
                    },
                    Some(v) => {
                        let m = s3.with_let(acc, v);
                        let u = run(absorb, s3, rounds)->Next_0;
                        assert(m.lets.dom().contains(start) == u.lets.dom().contains(start));
                        assert(m.lets.dom().contains(end) == u.lets.dom().contains(end));
                        assert(m.lets.dom().contains(acc) == u.lets.dom().contains(acc));
                        assert(same_below(s3, m, start as int));
                        lemma_same_chain(s, s3, m, start as int, start as int);
                        lemma_same_chain(s, m, u, start as int, y as int);
                    },
                }
            },
        }
    }
}

/// The code leaves `v` in a slot and nothing on the stack, or traps where that
/// is `None`. The slots below `base` stay.
pub open spec fn fills(
    ctx: Map<u32, int>,
    code: Seq<TaggedOpView>,
    target: u32,
    base: int,
    v: Option<int>,
    n: nat,
) -> bool {
    forall|s: Machine, rounds: nat|
        holds(ctx, s) && rounds >= n ==> match v {
            None => #[trigger] run(code, s, rounds) == Flow::Trap,
            Some(x) => {
                &&& run(code, s, rounds) matches Flow::Next(t)
                &&& t.stack == s.stack
                &&& t.lets.dom().contains(target)
                &&& t.lets[target] == x
                &&& same_below(s, t, base)
            },
        }
}

/// Bounds and accumulator are set, and the loop folds the code of its round.
proof fn lemma_loop_fills(
    ctx: Map<u32, int>,
    lo: Seq<TaggedOpView>,
    hi: Seq<TaggedOpView>,
    seed: Seq<TaggedOpView>,
    start: u32,
    end: u32,
    acc: u32,
    code: Seq<TaggedOpView>,
    range: TokenRange,
    a: int,
    b: int,
    z: int,
    f: spec_fn(int, int) -> Option<int>,
    n: nat,
)
    requires
        end == start + 1,
        acc == start + 2,
        fits(a),
        fits(b),
        context_below(ctx, start as int),
        yields(ctx, lo, start + 3, Some(a), n),
        yields(ctx, hi, start + 3, Some(b), n),
        yields(ctx, seed, start + 3, Some(z), n),
        rounds_on(ctx, code, start, end, acc, f, n),
    ensures
        fills(
            ctx,
            (lo.push(let_set(start, IrType::I64, range)) + hi.push(
                let_set(end, IrType::I64, range),
            ) + seed).push(let_set(acc, IrType::I64, range)).push(
                loop_op(round_body(start, end, code, range), range),
            ),
            acc,
            start as int,
            folded(f, z, a, b),
            n + 1 + span(a, b),
        ),
{
    let ty = IrType::I64;
    let base = start + 3;
    let whole = loop_op(round_body(start, end, code, range), range);
    let tail = seq![whole];
    let from_seed = seed.push(let_set(acc, ty, range)) + tail;
    let from_end = hi.push(let_set(end, ty, range)) + from_seed;
    let all = (lo.push(let_set(start, ty, range)) + hi.push(let_set(end, ty, range)) + seed).push(
        let_set(acc, ty, range),
    ).push(whole);
    assert(all =~= lo.push(let_set(start, ty, range)) + from_end);
    let outcome = folded(f, z, a, b);
    assert forall|s: Machine, rounds: nat|
        holds(ctx, s) && rounds >= n + 1 + span(a, b) implies match outcome {
        None => #[trigger] run(all, s, rounds) == Flow::Trap,
        Some(x) => {
            &&& run(all, s, rounds) matches Flow::Next(t)
            &&& t.stack == s.stack
            &&& t.lets.dom().contains(acc)
            &&& t.lets[acc] == x
            &&& same_below(s, t, start as int)
        },
    } by {
        let t1 = lemma_stored(ctx, lo, start, ty, range, from_end, base, a, n, s, rounds);
        let t2 = lemma_stored(ctx, hi, end, ty, range, from_seed, base, b, n, t1, rounds);
        let t3 = lemma_stored(ctx, seed, acc, ty, range, tail, base, z, n, t2, rounds);
        lemma_prologue(s, t1, t2, t3, start, end, acc, a, b, z);
        law_loop_folds(ctx, start, end, acc, code, f, n, range, t3, rounds);
        assert(run(all, s, rounds) == run(tail, t3, rounds));
        lemma_one(whole, t3, rounds);
        if outcome is Some {
            let t4 = step(whole, t3, rounds)->Next_0;
            lemma_same_chain(s, t3, t4, start as int, start as int);
        }
    }
}

/// One instruction alone.
proof fn lemma_one(op: TaggedOpView, s: Machine, rounds: nat)
    ensures
        run(seq![op], s, rounds) == step(op, s, rounds),
{
    let code = seq![op];
    assert(code[0] == op);
    if let Flow::Next(t) = step(op, s, rounds) {
        assert(run_from(code, 1, t, rounds) == Flow::Next(t));
    }
}

/// A row leaves the fold of its cells in its accumulator; it traps where a cell
/// or a step does.
pub proof fn law_row_folds<L: SubLowering>(
    ctx: Map<u32, int>,
    low: L,
    shape: NestedRangeShape<'_>,
    fold: RowFold<'_>,
    range: TokenRange,
    scope: Scope<'_>,
    at: SlotsView,
    a: int,
    b: int,
    z: int,
    cell: spec_fn(int) -> Option<int>,
    h: spec_fn(int, int) -> Option<int>,
    n: nat,
)
    requires
        row_means(ctx, low, shape, fold, range, scope, at, a, b, z, cell, h, n),
    ensures
        row_fragment(low, shape, fold, range, scope, at) matches Ok(f) && fills(
            ctx,
            f.ops,
            slot_at(at.lets, 2),
            at.lets as int,
            folded(cell_step(cell, h), z, a, b),
            n + 1 + span(a, b),
        ),
{
    let ty = IrType::I64;
    let start = at.lets;
    let end = slot_at(at.lets, 1);
    let acc = slot_at(at.lets, 2);
    let lo = start_value(low, shape.inner_range_args@, range, scope, at.after(3))->Ok_0;
    let hi = end_value(low, shape.inner_range_args@, range, scope, lo.slots)->Ok_0;
    let seed = row_seed(low, fold, range, scope, hi.slots)->Ok_0;
    let y = seed.slots.lets;
    let c = int_top(
        low.lowered(
            *shape.cell_body,
            scope.with(shape.inner_param.name, y, ty),
            seed.slots.after(1),
        ),
        shape.cell_body.range,
    )->Ok_0;
    let absorbed = row_step(low, fold, acc, c.slots.lets, range, scope, c.slots.after(1))->Ok_0;
    match fold {
        RowFold::Sum => {
            lemma_sum_absorbs(ctx, c.slots.lets, acc, y as int, range, n);
        },
        RowFold::Reduce { acc_param, cell_param, body, .. } => {
            let inner_at = c.slots.after(1);
            let inner = int_top(
                low.lowered(
                    *body,
                    scope.with(acc_param.name, inner_at.lets, ty).with(
                        cell_param.name,
                        c.slots.lets,
                        ty,
                    ),
                    inner_at.after(1),
                ),
                body.range,
            )->Ok_0;
            lemma_reduce_absorbs(
                ctx,
                inner.ops,
                c.slots.lets,
                acc,
                inner_at.lets,
                y as int,
                h,
                range,
                n,
            );
        },
    }
    let place = shape.cell_body.range;
    let code = cell_code(start, y, c.ops, c.slots.lets, place, absorbed.ops, range);
    lemma_cell_round(
        ctx,
        start,
        end,
        acc,
        y,
        c.ops,
        c.slots.lets,
        place,
        absorbed.ops,
        range,
        cell,
        h,
        n,
    );
    lemma_loop_fills(
        ctx,
        lo.ops,
        hi.ops,
        seed.ops,
        start,
        end,
        acc,
        code,
        range,
        a,
        b,
        z,
        cell_step(cell, h),
        n,
    );
    assert(round_body(start, end, code, range) =~= (exit_guard(start, end, ty, 1, range).push(
        let_get(start, ty, range),
    ).push(let_set(y, ty, range)) + c.ops).push(let_set(c.slots.lets, ty, place)) + absorbed.ops
        + step_and_loop(start, range));
}

/// What a row is: its bounds, its first accumulator, its cells and their fold.
pub ghost struct Row {
    pub a: int,
    pub b: int,
    pub z: int,
    pub cell: spec_fn(int) -> Option<int>,
    pub h: spec_fn(int, int) -> Option<int>,
}

impl Row {
    /// The fold of the row.
    pub open spec fn value(self) -> Option<int> {
        folded(cell_step(self.cell, self.h), self.z, self.a, self.b)
    }
}

/// The checked result of a combine operator.
pub open spec fn combined(op: Operator, acc_is_lhs: bool, p: int, r: int) -> Option<int> {
    let x = if acc_is_lhs {
        p
    } else {
        r
    };
    let y = if acc_is_lhs {
        r
    } else {
        p
    };
    let v = match op {
        Operator::Add => x + y,
        Operator::Sub => x - y,
        _ => x * y,
    };
    if fits(v) {
        Some(v)
    } else {
        None
    }
}

/// What a row does to the outer accumulator.
pub open spec fn rows_step(
    rows: spec_fn(int) -> Row,
    op: Operator,
    acc_is_lhs: bool,
) -> spec_fn(int, int) -> Option<int> {
    |p: int, x: int|
        match rows(x).value() {
            None => None,
            Some(r) => combined(op, acc_is_lhs, p, r),
        }
}

/// The parts of a nested reduction mean what they are said to: the outer bounds
/// are `a` and `b`, the first accumulator is `z`, and row `x` is `rows(x)`.
pub open spec fn nested_means<L: SubLowering>(
    ctx: Map<u32, int>,
    low: L,
    shape: NestedRangeShape<'_>,
    init: Node,
    combine: OuterCombine<'_>,
    range: TokenRange,
    scope: Scope<'_>,
    at: SlotsView,
    a: int,
    b: int,
    z: int,
    rows: spec_fn(int) -> Row,
    n: nat,
) -> bool {
    let base = at.lets + 3;
    &&& base <= u32::MAX
    &&& context_below(ctx, at.lets as int)
    &&& fits(a)
    &&& fits(b)
    &&& combine_op(combine.op, range) is Ok
    &&& start_value(low, shape.outer_range_args@, range, scope, at.after(3)) matches Ok(lo)
    &&& yields(ctx, lo.ops, base, Some(a), n)
    &&& end_value(low, shape.outer_range_args@, range, scope, lo.slots) matches Ok(hi)
    &&& yields(ctx, hi.ops, base, Some(b), n)
    &&& int_top(low.lowered(init, scope, hi.slots), init.range) matches Ok(seed)
    &&& yields(ctx, seed.ops, base, Some(z), n)
    &&& base <= seed.slots.lets < u32::MAX
    &&& forall|x: int|
        fits(x) ==> row_means(
            ctx.insert(seed.slots.lets, x),
            low,
            shape,
            combine.fold,
            range,
            scope.with(shape.outer_param.name, seed.slots.lets, IrType::I64),
            seed.slots.after(1),
            (#[trigger] rows(x)).a,
            rows(x).b,
            rows(x).z,
            rows(x).cell,
            rows(x).h,
            n,
        )
}

/// The code of one row of a nested reduction.
pub open spec fn row_code(
    start: u32,
    x: u32,
    row: Seq<TaggedOpView>,
    combine: Seq<TaggedOpView>,
    range: TokenRange,
) -> Seq<TaggedOpView> {
    seq![let_get(start, IrType::I64, range), let_set(x, IrType::I64, range)] + (row + combine)
}

/// The row is combined with the outer accumulator.
pub open spec fn combine_code(
    acc_is_lhs: bool,
    acc: u32,
    row_acc: u32,
    op: SimpleOp,
    range: TokenRange,
) -> Seq<TaggedOpView> {
    combine_operands(acc_is_lhs, acc, row_acc, range).push(sop(op, range)).push(
        let_set(acc, IrType::I64, range),
    )
}

proof fn lemma_combined(
    op: Operator,
    acc_is_lhs: bool,
    acc: u32,
    row_acc: u32,
    range: TokenRange,
    t: Machine,
    rounds: nat,
)
    requires
        combine_op(op, range) is Ok,
        t.lets.dom().contains(acc),
        t.lets.dom().contains(row_acc),
    ensures
        run(
            combine_code(acc_is_lhs, acc, row_acc, combine_op(op, range)->Ok_0, range),
            t,
            rounds,
        ) == match combined(op, acc_is_lhs, t.lets[acc], t.lets[row_acc]) {
            None => Flow::Trap,
            Some(v) => Flow::Next(t.with_let(acc, v)),
        },
{
    let ty = IrType::I64;
    let simple = combine_op(op, range)->Ok_0;
    let code = combine_code(acc_is_lhs, acc, row_acc, simple, range);
    let first = if acc_is_lhs {
        acc
    } else {
        row_acc
    };
    let second = if acc_is_lhs {
        row_acc
    } else {
        acc
    };
    let x = t.lets[first];
    let y = t.lets[second];
    let v = match op {
        Operator::Add => x + y,
        Operator::Sub => x - y,
        _ => x * y,
    };
    lemma_popped(t, x, y);
    lemma_popped(t, v, 0);
    lemma_simple(code, 0, SimpleOp::LetGet { idx: first, ty }, t, rounds);
    lemma_simple(code, 1, SimpleOp::LetGet { idx: second, ty }, t.pushed(x), rounds);
    lemma_simple(code, 2, simple, t.pushed(x).pushed(y), rounds);
    if fits(v) {
        lemma_simple(code, 3, SimpleOp::LetSet { idx: acc, ty }, t.pushed(v), rounds);
        assert(run_from(code, 4, t.with_let(acc, v), rounds) == Flow::Next(t.with_let(acc, v)));
    }
}

/// One row of a nested reduction is one round of its outer loop.
proof fn lemma_row_round(
    ctx: Map<u32, int>,
    start: u32,
    end: u32,
    acc: u32,
    x: u32,
    row: Seq<TaggedOpView>,
    row_acc: u32,
    op: Operator,
    acc_is_lhs: bool,
    range: TokenRange,
    rows: spec_fn(int) -> Row,
    n: nat,
)
    requires
        start < end < acc < x < row_acc,
        context_below(ctx, start as int),
        combine_op(op, range) is Ok,
        forall|i: int|
            fits(i) ==> fills(
                ctx.insert(x, i),
                row,
                row_acc,
                x + 1,
                (#[trigger] rows(i)).value(),
                n,
            ),
    ensures
        rounds_on(
            ctx,
            row_code(
                start,
                x,
                row,
                combine_code(acc_is_lhs, acc, row_acc, combine_op(op, range)->Ok_0, range),
                range,
            ),
            start,
            end,
            acc,
            rows_step(rows, op, acc_is_lhs),
            n,
        ),
{
    let ty = IrType::I64;
    let last = combine_code(acc_is_lhs, acc, row_acc, combine_op(op, range)->Ok_0, range);
    let code = row_code(start, x, row, last, range);
    let f = rows_step(rows, op, acc_is_lhs);
    assert forall|s: Machine, rounds: nat|
        holds(ctx, s) && ready(s, start, end, acc) && rounds >= n implies match f(
        s.lets[acc],
        s.lets[start],
    ) {
        None => #[trigger] run(code, s, rounds) == Flow::Trap,
        Some(v) => {
            &&& run(code, s, rounds) matches Flow::Next(t)
            &&& t.stack == s.stack
            &&& ready(t, start, end, acc)
            &&& t.lets[start] == s.lets[start]
            &&& t.lets[end] == s.lets[end]
            &&& t.lets[acc] == v
            &&& same_below(s, t, start as int)
        },
    } by {
        let i = s.lets[start];
        let s1 = s.with_let(x, i);
        lemma_copied(start, x, ty, range, row + last, s, rounds);
        lemma_run_concat(row, last, 0, s1, rounds);
        let inside = ctx.insert(x, i);
        assert(holds(inside, s1));
        assert(fills(inside, row, row_acc, x + 1, rows(i).value(), n));
        match rows(i).value() {
            None => {
                assert(run(row, s1, rounds) == Flow::Trap);
            },
            Some(r) => {
                let s2 = run(row, s1, rounds)->Next_0;
                assert(s1.lets.dom().contains(start) == s2.lets.dom().contains(start));
                assert(s1.lets.dom().contains(end) == s2.lets.dom().contains(end));
                assert(s1.lets.dom().contains(acc) == s2.lets.dom().contains(acc));
                assert(same_below(s, s1, start as int));
                lemma_same_chain(s, s1, s2, start as int, x + 1);
                lemma_combined(op, acc_is_lhs, acc, row_acc, range, s2, rounds);
                if let Some(v) = combined(op, acc_is_lhs, s2.lets[acc], r) {
                    let u = s2.with_let(acc, v);
                    assert(same_below(s2, u, start as int));
                    lemma_same_chain(s, s2, u, start as int, start as int);
                }
            },
        }
    }
}

/// A nested reduction pushes its combination over the rows from the first outer
/// bound up to the second, each row the fold of its cells; it traps where a cell
/// or a step does. Every slot that was set before it stays.
pub proof fn law_nested_reduction_folds<L: SubLowering>(
    ctx: Map<u32, int>,
    low: L,
    shape: NestedRangeShape<'_>,
    init: Node,
    combine: OuterCombine<'_>,
    range: TokenRange,
    scope: Scope<'_>,
    at: SlotsView,
    a: int,
    b: int,
    z: int,
    rows: spec_fn(int) -> Row,
    n: nat,
)
    requires
        nested_means(ctx, low, shape, init, combine, range, scope, at, a, b, z, rows, n),
    ensures
        nested_fragment(low, shape, init, combine, range, scope, at) matches Ok(f) && yields(
            ctx,
            f.ops,
            at.lets as int,
            folded(rows_step(rows, combine.op, combine.acc_is_lhs), z, a, b),
            n + 2 + u64::MAX as nat + span(a, b),
        ),
{
    let ty = IrType::I64;
    let start = at.lets;
    let end = slot_at(at.lets, 1);
    let acc = slot_at(at.lets, 2);
    let lo = start_value(low, shape.outer_range_args@, range, scope, at.after(3))->Ok_0;
    let hi = end_value(low, shape.outer_range_args@, range, scope, lo.slots)->Ok_0;
    let seed = int_top(low.lowered(init, scope, hi.slots), init.range)->Ok_0;
    let x = seed.slots.lets;
    let inner_at = seed.slots.after(1);
    let inner_scope = scope.with(shape.outer_param.name, x, ty);
    let row_acc = slot_at(inner_at.lets, 2);
    let deep = n + 1 + u64::MAX as nat;
    let f = rows_step(rows, combine.op, combine.acc_is_lhs);
    let row = row_fragment(low, shape, combine.fold, range, inner_scope, inner_at)->Ok_0;
    assert(row_fragment(low, shape, combine.fold, range, inner_scope, inner_at) is Ok) by {
        let r = rows(0);
        assert(fits(0));
        law_row_folds(
            ctx.insert(x, 0),
            low,
            shape,
            combine.fold,
            range,
            inner_scope,
            inner_at,
            r.a,
            r.b,
            r.z,
            r.cell,
            r.h,
            n,
        );
    }
    assert forall|i: int| fits(i) implies fills(
        ctx.insert(x, i),
        row.ops,
        row_acc,
        x + 1,
        (#[trigger] rows(i)).value(),
        deep,
    ) by {
        let r = rows(i);
        law_row_folds(
            ctx.insert(x, i),
            low,
            shape,
            combine.fold,
            range,
            inner_scope,
            inner_at,
            r.a,
            r.b,
            r.z,
            r.cell,
            r.h,
            n,
        );
    }
    assert(fits(0) && row_means(
        ctx.insert(x, 0),
        low,
        shape,
        combine.fold,
        range,
        inner_scope,
        inner_at,
        rows(0).a,
        rows(0).b,
        rows(0).z,
        rows(0).cell,
        rows(0).h,
        n,
    ));
    lemma_row_round(
        ctx,
        start,
        end,
        acc,
        x,
        row.ops,
        row_acc,
        combine.op,
        combine.acc_is_lhs,
        range,
        rows,
        deep,
    );
    let op = combine_op(combine.op, range)->Ok_0;
    let last = combine_code(combine.acc_is_lhs, acc, row_acc, op, range);
    let code = row_code(start, x, row.ops, last, range);
    lemma_loop_fills(
        ctx,
        lo.ops,
        hi.ops,
        seed.ops,
        start,
        end,
        acc,
        code,
        range,
        a,
        b,
        z,
        f,
        deep,
    );
    let whole = loop_op(round_body(start, end, code, range), range);
    let filled = (lo.ops.push(let_set(start, ty, range)) + hi.ops.push(let_set(end, ty, range))
        + seed.ops).push(let_set(acc, ty, range)).push(whole);
    let all = nested_fragment(low, shape, init, combine, range, scope, at)->Ok_0;
    assert(round_body(start, end, code, range) =~= (exit_guard(start, end, ty, 1, range).push(
        let_get(start, ty, range),
    ).push(let_set(x, ty, range)) + row.ops + combine_operands(
        combine.acc_is_lhs,
        acc,
        row_acc,
        range,
    )).push(sop(op, range)).push(let_set(acc, ty, range)) + step_and_loop(start, range));
    assert(all.ops =~= filled.push(let_get(acc, ty, range)));
    lemma_filled_read(
        ctx,
        filled,
        acc,
        at.lets as int,
        folded(f, z, a, b),
        range,
        deep + 1 + span(a, b),
    );
}

/// The slot that was filled is pushed.
proof fn lemma_filled_read(
    ctx: Map<u32, int>,
    code: Seq<TaggedOpView>,
    target: u32,
    base: int,
    v: Option<int>,
    range: TokenRange,
    n: nat,
)
    requires
        fills(ctx, code, target, base, v, n),
    ensures
        yields(ctx, code.push(let_get(target, IrType::I64, range)), base, v, n),
{
    let read = let_get(target, IrType::I64, range);
    let all = code.push(read);
    assert(all =~= code + seq![read]);
    assert forall|s: Machine, rounds: nat| holds(ctx, s) && rounds >= n implies match v {
        None => #[trigger] run(all, s, rounds) == Flow::Trap,
        Some(x) => {
            &&& run(all, s, rounds) matches Flow::Next(t)
            &&& t.stack == s.stack.push(x)
            &&& same_below(s, t, base)
        },
    } by {
        lemma_run_concat(code, seq![read], 0, s, rounds);
        match v {
            None => {
                assert(run(code, s, rounds) == Flow::Trap);
            },
            Some(x) => {
                let t = run(code, s, rounds)->Next_0;
                lemma_one(read, t, rounds);
            },
        }
    }
}

} // verus!

//! The order in which mutually referring fields can be computed, and the
//! cycles that leave none.

use vstd::prelude::*;
use vstd::set_lib::*;

use crate::components::{graph, in_bounds, targets};

verus! {

/// The field has not been emitted, and all that it refers to has.
pub open spec fn ready(g: Seq<Seq<int>>, done: Seq<int>, i: int) -> bool {
    &&& !done.contains(i)
    &&& forall|k: int| 0 <= k < g[i].len() ==> done.contains(#[trigger] g[i][k])
}

/// The first ready field at or behind `from`.
pub open spec fn least_ready(g: Seq<Seq<int>>, done: Seq<int>, from: int) -> Option<int>
    decreases g.len() - from,
{
    if from < 0 || from >= g.len() {
        None
    } else if ready(g, done, from) {
        Some(from)
    } else {
        least_ready(g, done, from + 1)
    }
}

/// `done`, followed by the first ready field, then the first ready one after
/// that, until none is ready.
pub open spec fn drained(g: Seq<Seq<int>>, done: Seq<int>) -> Seq<int>
    decreases g.len() - done.len(),
{
    if done.len() >= g.len() {
        done
    } else {
        match least_ready(g, done, 0) {
            None => done,
            Some(i) => drained(g, done.push(i)),
        }
    }
}

/// The order in which the fields are emitted, as far as it gets.
pub open spec fn emit_sequence(g: Seq<Seq<int>>) -> Seq<int> {
    drained(g, Seq::empty())
}

/// A walk along edges that returns to where it began.
pub open spec fn cycle(g: Seq<Seq<int>>, p: Seq<int>) -> bool {
    &&& p.len() >= 2
    &&& p[0] == p.last()
    &&& forall|k: int| 0 <= k < p.len() ==> 0 <= #[trigger] p[k] < g.len()
    &&& forall|k: int| 0 <= k < p.len() - 1 ==> #[trigger] steps(g, p[k], p[k + 1])
}

/// There is an edge from `a` to `b`.
pub open spec fn steps(g: Seq<Seq<int>>, a: int, b: int) -> bool {
    g[a].contains(b)
}

// ---------------------------------------------------------------------------
// What holds of the order.
// ---------------------------------------------------------------------------

proof fn lemma_least_ready(g: Seq<Seq<int>>, done: Seq<int>, from: int)
    requires
        0 <= from,
    ensures
        match least_ready(g, done, from) {
            Some(i) => from <= i < g.len() && ready(g, done, i) && forall|j: int|
                from <= j < i ==> !#[trigger] ready(g, done, j),
            None => forall|j: int| from <= j < g.len() ==> !#[trigger] ready(g, done, j),
        },
    decreases g.len() - from,
{
    if from < g.len() && !ready(g, done, from) {
        lemma_least_ready(g, done, from + 1);
    }
}

/// Every emitted field is one of the graph, occurs once, and stands behind
/// all that it refers to.
pub open spec fn sound(g: Seq<Seq<int>>, done: Seq<int>) -> bool {
    &&& done.no_duplicates()
    &&& forall|p: int| 0 <= p < done.len() ==> 0 <= #[trigger] done[p] < g.len()
    &&& forall|p: int, k: int|
        0 <= p < done.len() && 0 <= k < g[done[p]].len() ==> done.take(p).contains(
            #[trigger] g[done[p]][k],
        )
}

proof fn lemma_sound_push(g: Seq<Seq<int>>, done: Seq<int>, i: int)
    requires
        sound(g, done),
        0 <= i < g.len(),
        ready(g, done, i),
    ensures
        sound(g, done.push(i)),
{
    let more = done.push(i);
    assert forall|p: int, k: int| 0 <= p < more.len() && 0 <= k < g[more[p]].len() implies more.take(
        p,
    ).contains(#[trigger] g[more[p]][k]) by {
        assert(more.take(p) =~= done.take(p));
        if p == done.len() {
            assert(done.take(p) =~= done);
        } else {
            assert(done.take(p).contains(g[done[p]][k]));
        }
    }
}

proof fn lemma_drained(g: Seq<Seq<int>>, done: Seq<int>)
    requires
        sound(g, done),
        in_bounds(g, g.len() as int),
    ensures
        sound(g, drained(g, done)),
        drained(g, done).len() < g.len() ==> least_ready(g, drained(g, done), 0) is None,
    decreases g.len() - done.len(),
{
    if done.len() < g.len() {
        lemma_least_ready(g, done, 0);
        match least_ready(g, done, 0) {
            None => {},
            Some(i) => {
                lemma_sound_push(g, done, i);
                lemma_drained(g, done.push(i));
            },
        }
    }
}

/// Distinct numbers below `n`, `n` of them, are all of them.
proof fn lemma_covers(s: Seq<int>, n: nat, x: int)
    requires
        s.no_duplicates(),
        forall|p: int| 0 <= p < s.len() ==> 0 <= #[trigger] s[p] < n,
        0 <= x < n,
    ensures
        s.len() <= n,
        s.len() == n ==> s.contains(x),
{
    s.unique_seq_to_set();
    lemma_int_range(0, n as int);
    let all = set_int_range(0, n as int);
    assert(s.to_set().subset_of(all)) by {
        assert forall|y: int| s.to_set().contains(y) implies all.contains(y) by {
            let p = choose|p: int| 0 <= p < s.len() && s[p] == y;
            assert(0 <= s[p] < n);
        }
    }
    lemma_len_subset(s.to_set(), all);
    if s.len() == n {
        lemma_subset_equality(s.to_set(), all);
        assert(all.contains(x));
        assert(s.to_set().contains(x));
    }
}

/// The order names no field twice, puts every field behind all that it refers
/// to, and when it is as long as there are fields it names each of them.
pub proof fn law_order_is_topological(g: Seq<Seq<int>>)
    requires
        in_bounds(g, g.len() as int),
    ensures
        sound(g, emit_sequence(g)),
        emit_sequence(g).len() == g.len() ==> forall|x: int|
            0 <= x < g.len() ==> emit_sequence(g).contains(x),
{
    assert(sound(g, Seq::empty()));
    lemma_drained(g, Seq::empty());
    let order = emit_sequence(g);
    assert forall|x: int| 0 <= x < g.len() && order.len() == g.len() implies order.contains(x) by {
        lemma_covers(order, g.len(), x);
    }
}

proof fn lemma_identity_from(g: Seq<Seq<int>>, m: nat)
    requires
        m <= g.len(),
        forall|i: int, k: int|
            0 <= i < g.len() && 0 <= k < g[i].len() ==> 0 <= #[trigger] g[i][k] < i,
    ensures
        drained(g, Seq::new(m, |i: int| i)) == Seq::new(g.len(), |i: int| i),
    decreases g.len() - m,
{
    let done = Seq::new(m, |i: int| i);
    if m < g.len() {
        lemma_least_ready(g, done, 0);
        assert forall|k: int| 0 <= k < g[m as int].len() implies done.contains(
            #[trigger] g[m as int][k],
        ) by {
            assert(done[g[m as int][k]] == g[m as int][k]);
        }
        assert(ready(g, done, m as int));
        assert forall|j: int| 0 <= j < m implies !#[trigger] ready(g, done, j) by {
            assert(done[j] == j);
        }
        match least_ready(g, done, 0) {
            None => {},
            Some(i) => {
                assert(i == m);
                assert(done.push(i) =~= Seq::new((m + 1) as nat, |i: int| i));
                lemma_identity_from(g, (m + 1) as nat);
            },
        }
    }
}

/// Fields that only refer backwards are emitted in the order of declaration.
pub proof fn law_backward_references_keep_order(g: Seq<Seq<int>>)
    requires
        forall|i: int, k: int|
            0 <= i < g.len() && 0 <= k < g[i].len() ==> 0 <= #[trigger] g[i][k] < i,
    ensures
        emit_sequence(g) == Seq::new(g.len(), |i: int| i),
{
    assert(Seq::new(0, |i: int| i) =~= Seq::<int>::empty());
    lemma_identity_from(g, 0);
}

/// The emitted order grows by the first field that is ready, and ends where
/// none is.
proof fn lemma_grows_by_least(g: Seq<Seq<int>>, done: Seq<int>, k: int)
    requires
        done.len() <= k,
    ensures
        done.len() <= drained(g, done).len(),
        drained(g, done).take(done.len() as int) == done,
        k < drained(g, done).len() ==> least_ready(g, drained(g, done).take(k), 0) == Some(
            drained(g, done)[k],
        ),
    decreases g.len() - done.len(),
{
    let order = drained(g, done);
    match least_ready(g, done, 0) {
        Some(i) if done.len() < g.len() => {
            let more = done.push(i);
            lemma_grows_by_least(
                g,
                more,
                if k > done.len() {
                    k
                } else {
                    more.len() as int
                },
            );
            assert(order.take(done.len() as int) =~= order.take(more.len() as int).drop_last());
            assert(more.drop_last() =~= done);
            assert(order[done.len() as int] == order.take(more.len() as int)[done.len() as int]);
        },
        _ => {
            assert(order.take(done.len() as int) =~= done);
        },
    }
}

/// A field of a sound order is ready where those in front of it are done.
proof fn lemma_next_is_ready(g: Seq<Seq<int>>, order: Seq<int>, k: int)
    requires
        sound(g, order),
        0 <= k < order.len(),
    ensures
        ready(g, order.take(k), order[k]),
{
    assert forall|m: int| 0 <= m < g[order[k]].len() implies order.take(k).contains(
        #[trigger] g[order[k]][m],
    ) by {}
}

/// The emitted order is the smallest: held against any other order that puts
/// every field behind all that it refers to, at the first place where the two
/// may differ the emitted one has a field, and none that is declared later.
pub proof fn law_order_is_smallest(g: Seq<Seq<int>>, other: Seq<int>, k: int)
    requires
        in_bounds(g, g.len() as int),
        sound(g, other),
        0 <= k < other.len(),
        k <= emit_sequence(g).len(),
        emit_sequence(g).take(k) == other.take(k),
    ensures
        k < emit_sequence(g).len(),
        emit_sequence(g)[k] <= other[k],
{
    let order = emit_sequence(g);
    lemma_next_is_ready(g, other, k);
    lemma_least_ready(g, other.take(k), 0);
    lemma_grows_by_least(g, Seq::empty(), k);
    if k == order.len() {
        assert(order.take(k) =~= order);
        assert(sound(g, Seq::empty()));
        lemma_drained(g, Seq::empty());
        lemma_covers(other, g.len(), other[k]);
    }
}

/// The emitted order is the longest: a field that any order can reach, with
/// every field behind all that it refers to, is emitted.
pub proof fn law_order_is_longest(g: Seq<Seq<int>>, other: Seq<int>, k: int)
    requires
        in_bounds(g, g.len() as int),
        sound(g, other),
        0 <= k < other.len(),
    ensures
        emit_sequence(g).contains(other[k]),
    decreases k,
{
    let order = emit_sequence(g);
    assert(sound(g, Seq::empty()));
    lemma_drained(g, Seq::empty());
    if !order.contains(other[k]) {
        lemma_covers(order, g.len(), other[k]);
        lemma_least_ready(g, order, 0);
        lemma_next_is_ready(g, other, k);
        assert forall|m: int| 0 <= m < g[other[k]].len() implies order.contains(
            #[trigger] g[other[k]][m],
        ) by {
            let before = other.take(k);
            assert(before.contains(g[other[k]][m]));
            let j = choose|j: int| 0 <= j < before.len() && before[j] == g[other[k]][m];
            law_order_is_longest(g, other, j);
        }
        assert(ready(g, order, other[k]));
    }
}

proof fn lemma_positions_fall(g: Seq<Seq<int>>, order: Seq<int>, p: Seq<int>, k: int) -> (r: int)
    requires
        sound(g, order),
        cycle(g, p),
        order.contains(p[0]),
        0 <= k < p.len(),
    ensures
        0 <= r < order.len(),
        order[r] == p[k],
        k > 0 ==> r < order.index_of(p[0]),
        k == 0 ==> r == order.index_of(p[0]),
    decreases k,
{
    if k == 0 {
        order.index_of(p[0])
    } else {
        let before = lemma_positions_fall(g, order, p, k - 1);
        assert(steps(g, p[k - 1], p[k - 1 + 1]));
        let out = g[p[k - 1]];
        let m = choose|m: int| 0 <= m < out.len() && out[m] == p[k];
        assert(order.take(before).contains(g[order[before]][m]));
        let r = choose|r: int| 0 <= r < order.take(before).len() && order.take(before)[r] == p[k];
        r
    }
}

/// No field of a cycle is ever emitted.
proof fn lemma_cycle_not_emitted(g: Seq<Seq<int>>, order: Seq<int>, p: Seq<int>)
    requires
        sound(g, order),
        cycle(g, p),
    ensures
        !order.contains(p[0]),
{
    if order.contains(p[0]) {
        let r = lemma_positions_fall(g, order, p, p.len() - 1);
        assert(order[r] == order[order.index_of(p[0])]);
    }
}

/// A walk of `m` steps from `x` through fields that are never emitted.
proof fn lemma_stuck_walk(g: Seq<Seq<int>>, order: Seq<int>, x: int, m: nat) -> (p: Seq<int>)
    requires
        in_bounds(g, g.len() as int),
        least_ready(g, order, 0) is None,
        0 <= x < g.len(),
        !order.contains(x),
    ensures
        p.len() == m + 1,
        forall|k: int|
            0 <= k < p.len() ==> 0 <= #[trigger] p[k] < g.len() && !order.contains(p[k]),
        forall|k: int| 0 <= k < p.len() - 1 ==> #[trigger] steps(g, p[k], p[k + 1]),
    decreases m,
{
    if m == 0 {
        seq![x]
    } else {
        let q = lemma_stuck_walk(g, order, x, (m - 1) as nat);
        let u = q.last();
        lemma_least_ready(g, order, 0);
        assert(!ready(g, order, u));
        let k = choose|k: int| 0 <= k < g[u].len() && !order.contains(#[trigger] g[u][k]);
        let p = q.push(g[u][k]);
        assert forall|j: int| 0 <= j < p.len() - 1 implies #[trigger] steps(
            g,
            p[j],
            p[j + 1],
        ) by {
            if j < q.len() - 1 {
                assert(steps(g, q[j], q[j + 1]));
            } else {
                assert(p[j] == u);
                assert(g[u].contains(g[u][k]));
            }
        }
        p
    }
}

/// Where the order is stuck, a cycle runs through fields that are not emitted.
proof fn lemma_stuck_has_cycle(g: Seq<Seq<int>>, order: Seq<int>) -> (c: Seq<int>)
    requires
        in_bounds(g, g.len() as int),
        sound(g, order),
        order.len() < g.len(),
        least_ready(g, order, 0) is None,
    ensures
        cycle(g, c),
        forall|k: int| 0 <= k < c.len() ==> !order.contains(#[trigger] c[k]),
{
    let n = g.len();
    let x = lemma_missing(order, n);
    let p = lemma_stuck_walk(g, order, x, n);
    if p.no_duplicates() {
        lemma_covers(p, n, 0);
    }
    let (a, b) = choose|a: int, b: int|
        0 <= a < p.len() && 0 <= b < p.len() && a != b && #[trigger] p[a] == #[trigger] p[b];
    let (lo, hi) = if a < b {
        (a, b)
    } else {
        (b, a)
    };
    let c = p.subrange(lo, hi + 1);
    assert forall|k: int| 0 <= k < c.len() - 1 implies #[trigger] steps(g, c[k], c[k + 1]) by {
        assert(steps(g, p[lo + k], p[lo + k + 1]));
    }
    c
}

/// Fewer than `n` numbers leave one below `n` out.
proof fn lemma_missing(s: Seq<int>, n: nat) -> (x: int)
    requires
        s.len() < n,
    ensures
        0 <= x < n,
        !s.contains(x),
{
    if forall|y: int| 0 <= y < n ==> s.contains(y) {
        let all = set_int_range(0, n as int);
        lemma_int_range(0, n as int);
        assert(all.subset_of(s.to_set())) by {
            assert forall|y: int| all.contains(y) implies s.to_set().contains(y) by {}
        }
        lemma_len_subset(all, s.to_set());
        s.lemma_cardinality_of_set();
    }
    choose|y: int| 0 <= y < n && !s.contains(y)
}

/// The fields can all be emitted exactly if no reference runs in a cycle.
pub proof fn law_stuck_iff_cycle(g: Seq<Seq<int>>)
    requires
        in_bounds(g, g.len() as int),
    ensures
        emit_sequence(g).len() < g.len() <==> exists|p: Seq<int>| cycle(g, p),
        emit_sequence(g).len() <= g.len(),
{
    let order = emit_sequence(g);
    assert(sound(g, Seq::empty()));
    lemma_drained(g, Seq::empty());
    if g.len() > 0 {
        lemma_covers(order, g.len(), 0);
    }
    if order.len() < g.len() {
        let c = lemma_stuck_has_cycle(g, order);
        assert(cycle(g, c));
    }
    if exists|p: Seq<int>| cycle(g, p) {
        let p = choose|p: Seq<int>| cycle(g, p);
        assert(0 <= p[0] < g.len());
        lemma_cycle_not_emitted(g, order, p);
        lemma_covers(order, g.len(), p[0]);
    }
}

// ---------------------------------------------------------------------------
// Computing the order.
// ---------------------------------------------------------------------------

/// How often `x` occurs.
pub open spec fn count(s: Seq<int>, x: int) -> nat
    decreases s.len(),
{
    if s.len() == 0 {
        0
    } else {
        count(s.drop_last(), x) + if s.last() == x {
            1nat
        } else {
            0nat
        }
    }
}

/// How many targets have not been emitted.
pub open spec fn pending(js: Seq<int>, done: Seq<int>) -> nat
    decreases js.len(),
{
    if js.len() == 0 {
        0
    } else {
        pending(js.drop_last(), done) + if done.contains(js.last()) {
            0nat
        } else {
            1nat
        }
    }
}

proof fn lemma_pending(js: Seq<int>, done: Seq<int>, i: int)
    ensures
        pending(js, Seq::empty()) == js.len(),
        pending(js, done) <= js.len(),
        !done.contains(i) ==> pending(js, done) == pending(js, done.push(i)) + count(js, i),
        pending(js, done) == 0 <==> (forall|k: int|
            0 <= k < js.len() ==> done.contains(#[trigger] js[k])),
    decreases js.len(),
{
    if js.len() > 0 {
        let rest = js.drop_last();
        lemma_pending(rest, done, i);
        let more = done.push(i);
        assert(more.contains(js.last()) <==> done.contains(js.last()) || js.last() == i) by {
            if done.contains(js.last()) {
                let k = choose|k: int| 0 <= k < done.len() && done[k] == js.last();
                assert(more[k] == js.last());
            }
            if js.last() == i {
                assert(more[done.len() as int] == i);
            }
        }
        if pending(js, done) == 0 {
            assert forall|k: int| 0 <= k < js.len() implies done.contains(#[trigger] js[k]) by {
                if k < rest.len() {
                    assert(rest[k] == js[k]);
                }
            }
        }
        if forall|k: int| 0 <= k < js.len() ==> done.contains(#[trigger] js[k]) {
            assert forall|k: int| 0 <= k < rest.len() implies done.contains(
                #[trigger] rest[k],
            ) by {
                assert(rest[k] == js[k]);
            }
            assert(done.contains(js[js.len() - 1]));
        }
    }
}

proof fn lemma_count_prefix(s: Seq<int>, m: int, x: int)
    requires
        0 <= m <= s.len(),
    ensures
        count(s.take(m), x) <= count(s, x),
        m < s.len() ==> count(s.take(m + 1), x) == count(s.take(m), x) + (if s[m] == x {
            1nat
        } else {
            0nat
        }),
    decreases s.len() - m,
{
    if m < s.len() {
        lemma_count_prefix(s, m + 1, x);
        assert(s.take(m + 1).drop_last() =~= s.take(m));
        assert(s.take(m + 1).last() == s[m]);
    } else {
        assert(s.take(m) =~= s);
    }
}

proof fn lemma_count_contains(s: Seq<int>, x: int)
    ensures
        count(s, x) > 0 <==> s.contains(x),
    decreases s.len(),
{
    if s.len() > 0 {
        let rest = s.drop_last();
        lemma_count_contains(rest, x);
        if s.contains(x) {
            let k = choose|k: int| 0 <= k < s.len() && s[k] == x;
            if k < rest.len() {
                assert(rest[k] == x);
            }
        }
        if rest.contains(x) {
            let k = choose|k: int| 0 <= k < rest.len() && rest[k] == x;
            assert(s[k] == x);
        }
        if s.last() == x {
            assert(s[s.len() - 1] == x);
        }
    }
}

/// The edges of `h` are those of `g`, turned around.
pub open spec fn turned(g: Seq<Seq<int>>, h: Seq<Seq<int>>) -> bool {
    &&& h.len() == g.len()
    &&& forall|i: int, j: int|
        0 <= i < g.len() && 0 <= j < g.len() ==> #[trigger] count(h[j], i) == #[trigger] count(
            g[i],
            j,
        )
}

fn turn(refs: &Vec<Vec<usize>>) -> (out: Vec<Vec<usize>>)
    requires
        in_bounds(graph(refs@), refs@.len() as int),
    ensures
        turned(graph(refs@), graph(out@)),
        in_bounds(graph(out@), refs@.len() as int),
{
    let n: usize = refs.len();
    let ghost g = graph(refs@);
    let mut out: Vec<Vec<usize>> = Vec::new();
    let mut i: usize = 0;
    while i < n
        invariant
            i <= n,
            out@.len() == i,
            forall|x: int| 0 <= x < i ==> (#[trigger] out@[x])@.len() == 0,
        decreases n - i,
    {
        out.push(Vec::new());
        i += 1;
    }
    i = 0;
    assert forall|x: int, j: int| 0 <= x < n && 0 <= j < n implies #[trigger] count(
        graph(out@)[j],
        x,
    ) == 0 by {
        assert(out@[j]@.len() == 0);
    }
    while i < n
        invariant
            i <= n,
            n == refs@.len(),
            out@.len() == n,
            g == graph(refs@),
            in_bounds(g, n as int),
            in_bounds(graph(out@), n as int),
            forall|x: int, j: int|
                0 <= x < i && 0 <= j < n ==> #[trigger] count(graph(out@)[j], x)
                    == #[trigger] count(g[x], j),
            forall|x: int, j: int|
                i <= x < n && 0 <= j < n ==> #[trigger] count(graph(out@)[j], x) == 0,
        decreases n - i,
    {
        let js = &refs[i];
        let ghost first = graph(out@);
        let mut k: usize = 0;
        assert forall|j: int| 0 <= j < n implies #[trigger] count(first[j], i as int) == count(
            g[i as int].take(0),
            j,
        ) by {
            assert(g[i as int].take(0) =~= Seq::empty());
        }
        while k < js.len()
            invariant
                i < n,
                n == refs@.len(),
                k <= js.len(),
                *js == refs@[i as int],
                out@.len() == n,
                g == graph(refs@),
                g[i as int].len() == js@.len(),
                in_bounds(g, n as int),
                in_bounds(graph(out@), n as int),
                forall|x: int, j: int|
                    0 <= x < n && x != i && 0 <= j < n ==> #[trigger] count(graph(out@)[j], x)
                        == count(first[j], x),
                forall|j: int|
                    0 <= j < n ==> #[trigger] count(graph(out@)[j], i as int) == count(
                        g[i as int].take(k as int),
                        j,
                    ),
            decreases js.len() - k,
        {
            let j: usize = js[k];
            assert(g[i as int][k as int] == j);
            let ghost before = graph(out@);
            let mut row: Vec<usize> = Vec::new();
            let mut m: usize = 0;
            while m < out[j].len()
                invariant
                    j < n,
                    out@.len() == n,
                    m <= out@[j as int]@.len(),
                    row@ == out@[j as int]@.take(m as int),
                decreases out@[j as int]@.len() - m,
            {
                row.push(out[j][m]);
                assert(row@ =~= out@[j as int]@.take(m + 1));
                m += 1;
            }
            row.push(i);
            out.set(j, row);
            let ghost after = graph(out@);
            assert(after =~= before.update(j as int, before[j as int].push(i as int))) by {
                assert(after[j as int] =~= before[j as int].push(i as int));
                assert forall|y: int| 0 <= y < n && y != j implies after[y] == before[y] by {
                    assert(after[y] =~= before[y]);
                }
            }
            assert forall|x: int, y: int| 0 <= x < n && x != i && 0 <= y < n implies #[trigger] count(
                after[y],
                x,
            ) == count(first[y], x) by {
                assert(count(before[y], x) == count(first[y], x));
                if y == j {
                    assert(after[y].drop_last() =~= before[y]);
                }
            }
            assert forall|y: int| 0 <= y < n implies #[trigger] count(after[y], i as int) == count(
                g[i as int].take(k + 1),
                y,
            ) by {
                assert(count(before[y], i as int) == count(g[i as int].take(k as int), y));
                lemma_count_prefix(g[i as int], k as int, y);
                if y == j {
                    assert(after[y].drop_last() =~= before[y]);
                }
            }
            assert forall|a: int, b: int|
                0 <= a < after.len() && 0 <= b < after[a].len() implies 0 <= #[trigger] after[a][b]
                < n by {
                if a != j || b < before[a].len() {
                    assert(after[a][b] == before[a][b]);
                }
            }
            k += 1;
        }
        assert(g[i as int].take(js@.len() as int) =~= g[i as int]);
        i += 1;
    }
    out
}

/// A cycle of turned edges is one of the edges, walked backwards.
pub proof fn lemma_turned_cycle(h: Seq<Seq<int>>, g: Seq<Seq<int>>, p: Seq<int>)
    requires
        turned(g, h) || turned(h, g),
        cycle(h, p),
    ensures
        cycle(g, p.reverse()),
{
    let r = p.reverse();
    assert forall|k: int| 0 <= k < r.len() implies 0 <= #[trigger] r[k] < g.len() by {
        assert(r[k] == p[p.len() - 1 - k]);
    }
    assert forall|k: int| 0 <= k < r.len() - 1 implies #[trigger] steps(g, r[k], r[k + 1]) by {
        let m = p.len() - 2 - k;
        assert(steps(h, p[m], p[m + 1]));
        assert(0 <= p[m] < h.len() && 0 <= p[m + 1] < h.len());
        lemma_count_contains(h[p[m]], p[m + 1]);
        lemma_count_contains(g[p[m + 1]], p[m]);
        assert(count(h[p[m]], p[m + 1]) == count(g[p[m + 1]], p[m]));
    }
}

/// Where the order is stuck, a cycle of turned edges runs through fields that
/// still wait for another one.
pub proof fn lemma_waiting_cycle(g: Seq<Seq<int>>, h: Seq<Seq<int>>, incoming: Seq<usize>)
    requires
        in_bounds(g, g.len() as int),
        turned(g, h),
        emit_sequence(g).len() < g.len(),
        incoming.len() == g.len(),
        forall|x: int|
            0 <= x < g.len() ==> (#[trigger] incoming[x]) as nat == pending(
                g[x],
                emit_sequence(g),
            ),
    ensures
        exists|p: Seq<int>| #[trigger] cycle(h, p) && incoming[p[0]] != 0,
{
    let order = emit_sequence(g);
    assert(sound(g, Seq::empty()));
    lemma_drained(g, Seq::empty());
    let c = lemma_stuck_has_cycle(g, order);
    lemma_turned_cycle(g, h, c);
    let p = c.reverse();
    assert(p[0] == c.last());
    assert(c[0] == c[c.len() - 1]);
    let z: int = 0;
    assert(steps(g, c[z], c[z + 1]));
    let out = g[c[0]];
    let m = choose|m: int| 0 <= m < out.len() && out[m] == c[1];
    assert(!order.contains(c[1]));
    lemma_pending(out, order, 0);
    assert(incoming[c[0]] as nat == pending(g[c[0]], order));
    assert(cycle(h, p) && incoming[p[0]] != 0);
}

/// A field of which every reference has been emitted is ready.
proof fn lemma_ready_iff(g: Seq<Seq<int>>, done: Seq<int>, i: int)
    ensures
        ready(g, done, i) <==> !done.contains(i) && pending(g[i], done) == 0,
{
    lemma_pending(g[i], done, i);
}

/// The first field that is neither emitted nor waits for another one.
fn next_ready(incoming: &Vec<usize>, emitted: &Vec<bool>, Ghost(g): Ghost<Seq<Seq<int>>>, Ghost(
    done,
): Ghost<Seq<int>>) -> (r: Option<usize>)
    requires
        incoming@.len() == g.len(),
        emitted@.len() == g.len(),
        forall|x: int|
            0 <= x < g.len() ==> (#[trigger] incoming@[x]) as nat == pending(g[x], done),
        forall|x: int| 0 <= x < g.len() ==> #[trigger] emitted@[x] == done.contains(x),
    ensures
        match r {
            Some(i) => i < g.len() && least_ready(g, done, 0) == Some(i as int),
            None => least_ready(g, done, 0) is None,
        },
{
    let mut i: usize = 0;
    while i < incoming.len()
        invariant
            i <= incoming@.len(),
            incoming@.len() == g.len(),
            emitted@.len() == g.len(),
            forall|x: int|
                0 <= x < g.len() ==> (#[trigger] incoming@[x]) as nat == pending(g[x], done),
            forall|x: int| 0 <= x < g.len() ==> #[trigger] emitted@[x] == done.contains(x),
            least_ready(g, done, 0) == least_ready(g, done, i as int),
        decreases incoming@.len() - i,
    {
        proof {
            lemma_ready_iff(g, done, i as int);
        }
        if !emitted[i] && incoming[i] == 0 {
            return Some(i);
        }
        i += 1;
    }
    None
}

/// Takes the edges that leave field `i` off the counts.
fn release(incoming: &mut Vec<usize>, outs: &Vec<usize>, Ghost(g): Ghost<Seq<Seq<int>>>, Ghost(
    done,
): Ghost<Seq<int>>, Ghost(i): Ghost<int>)
    requires
        old(incoming)@.len() == g.len(),
        !done.contains(i),
        forall|k: int| 0 <= k < targets(*outs).len() ==> 0 <= #[trigger] targets(*outs)[k] < g.len(),
        forall|x: int|
            0 <= x < g.len() ==> (#[trigger] old(incoming)@[x]) as nat == pending(g[x], done),
        forall|x: int|
            0 <= x < g.len() ==> #[trigger] count(targets(*outs), x) == count(g[x], i),
    ensures
        final(incoming)@.len() == g.len(),
        forall|x: int|
            0 <= x < g.len() ==> (#[trigger] final(incoming)@[x]) as nat == pending(
                g[x],
                done.push(i),
            ),
{
    let ghost js = targets(*outs);
    let mut m: usize = 0;
    assert(js.take(0) =~= Seq::empty());
    while m < outs.len()
        invariant
            m <= outs@.len(),
            js == targets(*outs),
            js.len() == outs@.len(),
            incoming@.len() == g.len(),
            !done.contains(i),
            forall|k: int| 0 <= k < js.len() ==> 0 <= #[trigger] js[k] < g.len(),
            forall|x: int| 0 <= x < g.len() ==> #[trigger] count(js, x) == count(g[x], i),
            forall|x: int|
                0 <= x < g.len() ==> (#[trigger] incoming@[x]) as nat == pending(g[x], done)
                    - count(js.take(m as int), x),
        decreases outs@.len() - m,
    {
        let j: usize = outs[m];
        assert(js[m as int] == j);
        let ghost before = incoming@;
        proof {
            assert(count(js, j as int) == count(g[j as int], i));
            lemma_pending(g[j as int], done, i);
            lemma_count_prefix(js, m as int, j as int);
            lemma_count_prefix(js, m + 1, j as int);
            assert(before[j as int] as nat == pending(g[j as int], done) - count(
                js.take(m as int),
                j as int,
            ));
        }
        let left: usize = incoming[j];
        incoming.set(j, left - 1);
        assert forall|x: int| 0 <= x < g.len() implies (#[trigger] incoming@[x]) as nat == pending(
            g[x],
            done,
        ) - count(js.take(m + 1), x) by {
            assert(before[x] as nat == pending(g[x], done) - count(js.take(m as int), x));
            lemma_count_prefix(js, m as int, x);
        }
        m += 1;
    }
    assert(js.take(js.len() as int) =~= js);
    assert forall|x: int| 0 <= x < g.len() implies (#[trigger] incoming@[x]) as nat == pending(
        g[x],
        done.push(i),
    ) by {
        lemma_pending(g[x], done, i);
        assert(count(js, x) == count(g[x], i));
    }
}

/// The fields emitted, the edges turned around, and for each field the number
/// of references that were never emitted.
pub struct Drained {
    pub order: Vec<usize>,
    pub outgoing: Vec<Vec<usize>>,
    pub incoming: Vec<usize>,
}

/// Emits the first ready field until none is ready.
pub fn drain(refs: &Vec<Vec<usize>>) -> (r: Drained)
    requires
        in_bounds(graph(refs@), refs@.len() as int),
    ensures
        targets(r.order) == emit_sequence(graph(refs@)),
        turned(graph(refs@), graph(r.outgoing@)),
        in_bounds(graph(r.outgoing@), refs@.len() as int),
        r.incoming@.len() == refs@.len(),
        forall|x: int|
            0 <= x < refs@.len() ==> (#[trigger] r.incoming@[x]) as nat == pending(
                graph(refs@)[x],
                emit_sequence(graph(refs@)),
            ),
{
    let n: usize = refs.len();
    let ghost g = graph(refs@);
    let outgoing: Vec<Vec<usize>> = turn(refs);
    let ghost h = graph(outgoing@);
    let mut incoming: Vec<usize> = Vec::new();
    let mut emitted: Vec<bool> = Vec::new();
    let mut order: Vec<usize> = Vec::new();
    let mut i: usize = 0;
    while i < n
        invariant
            i <= n,
            n == refs@.len(),
            g == graph(refs@),
            incoming@.len() == i,
            emitted@.len() == i,
            forall|x: int|
                0 <= x < i ==> (#[trigger] incoming@[x]) as nat == pending(g[x], Seq::empty()),
            forall|x: int| 0 <= x < i ==> !#[trigger] emitted@[x],
        decreases n - i,
    {
        incoming.push(refs[i].len());
        emitted.push(false);
        proof {
            lemma_pending(g[i as int], Seq::empty(), 0);
        }
        i += 1;
    }
    assert(targets(order) =~= Seq::empty());
    while order.len() < n
        invariant_except_break
            order@.len() <= n,
        invariant
            n == refs@.len(),
            g == graph(refs@),
            h == graph(outgoing@),
            turned(g, h),
            in_bounds(h, n as int),
            incoming@.len() == n,
            emitted@.len() == n,
            forall|x: int|
                0 <= x < n ==> (#[trigger] incoming@[x]) as nat == pending(g[x], targets(order)),
            forall|x: int|
                0 <= x < n ==> #[trigger] emitted@[x] == targets(order).contains(x),
            drained(g, targets(order)) == emit_sequence(g),
        ensures
            order@.len() >= n || least_ready(g, targets(order), 0) is None,
        decreases n - order@.len(),
    {
        let ghost done = targets(order);
        match next_ready(&incoming, &emitted, Ghost(g), Ghost(done)) {
            None => {
                break;
            },
            Some(i) => {
                proof {
                    lemma_least_ready(g, done, 0);
                }
                assert(targets(outgoing@[i as int]) == h[i as int]);
                release(&mut incoming, &outgoing[i], Ghost(g), Ghost(done), Ghost(i as int));
                order.push(i);
                assert(targets(order) =~= done.push(i as int));
                emitted.set(i, true);
                assert forall|x: int| 0 <= x < n implies #[trigger] emitted@[x] == targets(
                    order,
                ).contains(x) by {
                    if x == i {
                        assert(targets(order)[done.len() as int] == i);
                    } else if done.contains(x) {
                        let k = choose|k: int| 0 <= k < done.len() && done[k] == x;
                        assert(targets(order)[k] == x);
                    }
                }
            },
        }
    }
    Drained { order, outgoing, incoming }
}

} // verus!

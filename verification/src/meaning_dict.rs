//! What reading a dictionary computes.

use vstd::prelude::*;

use crate::ast::{Node, TokenRange};
use crate::fragment::{let_get, let_set, Scope, SlotsView, SubLowering};
use crate::index::{
    compare_bytes, dict_index, match_head, match_tail, miss_trap, probe, probe_setup, scan_head,
    scan_tail,
};
use crate::ir::{sop, IrType, OpView, SimpleOp, TaggedOpView};
use crate::meaning::{
    behind_block, context_below, group_straight, holds, lemma_run_concat, lemma_same_chain,
    lemma_same_less, lemma_still_holds, reads, run, run_from, same_below, step, truth, Cell, Flow,
    Machine,
};
use crate::meaning_lists::{builds, equals, kept_memory, lemma_guard_32, limit, solid};
use crate::range_loop::{block_op, exit_guard, loop_op};

verus! {

/// The bytes stand in memory from an address on.
pub open spec fn bytes_at(m: Map<int, Cell>, addr: int, bytes: Seq<int>) -> bool {
    forall|j: int| 0 <= j < bytes.len() ==> #[trigger] reads(m, addr + j, 1, bytes[j])
}

/// The text record at `v` holds the bytes: their number, then the bytes.
pub open spec fn text_holds(m: Map<int, Cell>, v: int, bytes: Seq<int>) -> bool {
    reads(m, v, 4, bytes.len() as int) && bytes_at(m, v + 4, bytes)
}

/// An entry of a dictionary: the bytes of its key, and its value.
pub ghost struct DictEntry {
    pub key: Seq<int>,
    pub value: int,
}

/// Entry `i` of the dictionary record at `v`: where its key begins, counted from
/// the record, how long the key is, and the value.
pub open spec fn entry_holds(
    m: Map<int, Cell>,
    v: int,
    i: int,
    entry: DictEntry,
    off: int,
) -> bool {
    &&& reads(m, v + 16 + 16 * i, 4, off)
    &&& reads(m, v + 16 + 16 * i + 4, 4, entry.key.len() as int)
    &&& reads(m, v + 16 + 16 * i + 8, 8, entry.value)
    &&& 0 <= off
    &&& v + off <= limit()
    &&& bytes_at(m, v + off, entry.key)
}

/// Entry `i` of the dictionary record at `v`.
pub open spec fn has_entry(m: Map<int, Cell>, v: int, i: int, entry: DictEntry) -> bool {
    exists|off: int| #[trigger] entry_holds(m, v, i, entry, off)
}

/// The dictionary record at `v` holds the entries: their number, and the entries
/// behind a head of sixteen bytes.
pub open spec fn dict_holds(m: Map<int, Cell>, v: int, entries: Seq<DictEntry>) -> bool {
    &&& reads(m, v, 4, entries.len() as int)
    &&& forall|i: int| 0 <= i < entries.len() ==> #[trigger] has_entry(m, v, i, entries[i])
}

/// The value of the first entry at or behind `from` with the given key.
pub open spec fn entry_value(entries: Seq<DictEntry>, key: Seq<int>, from: int) -> Option<int>
    decreases entries.len() - from,
{
    if from < 0 || from >= entries.len() {
        None
    } else if entries[from].key == key {
        Some(entries[from].value)
    } else {
        entry_value(entries, key, from + 1)
    }
}

/// The slots of a probe: the dictionary, the key, and from `base` on the length
/// of the key and the number of entries.
pub open spec fn probing(
    s: Machine,
    dict: u32,
    key: u32,
    base: u32,
    d: int,
    k: int,
    entries: Seq<DictEntry>,
    bytes: Seq<int>,
) -> bool {
    &&& dict < key < base
    &&& base + 10 <= u32::MAX
    &&& s.lets.dom().contains(dict) && s.lets[dict] == d
    &&& s.lets.dom().contains(key) && s.lets[key] == k
    &&& s.lets.dom().contains(base) && s.lets[base] == bytes.len()
    &&& s.lets.dom().contains((base + 1) as u32) && s.lets[(base + 1) as u32] == entries.len()
    &&& 0 <= d
    &&& 0 <= k
    &&& solid(s)
    &&& s.free <= limit()
    &&& dict_holds(s.mem, d, entries)
    &&& text_holds(s.mem, k, bytes)
}

/// One round of the comparison of two keys of the same length.
#[verifier::rlimit(50)]
#[verifier::spinoff_prover]
proof fn lemma_compare_round(
    key: u32,
    base: u32,
    range: TokenRange,
    s: Machine,
    k: int,
    bytes: Seq<int>,
    e: int,
    other: Seq<int>,
    j: int,
    rounds: nat,
)
    requires
        key < base,
        base + 10 <= u32::MAX,
        s.lets.dom().contains(key) && s.lets[key] == k,
        s.lets.dom().contains(base) && s.lets[base] == bytes.len(),
        s.lets.dom().contains((base + 5) as u32) && s.lets[(base + 5) as u32] == e,
        s.lets.dom().contains((base + 7) as u32) && s.lets[(base + 7) as u32] == j,
        0 <= k,
        0 <= e,
        solid(s),
        s.free <= limit(),
        bytes_at(s.mem, k + 4, bytes),
        bytes_at(s.mem, e, other),
        other.len() == bytes.len(),
        0 <= j <= bytes.len(),
    ensures
        run(
            compare_bytes(
                key,
                base,
                (base + 5) as u32,
                (base + 7) as u32,
                (base + 8) as u32,
                range,
            ),
            s,
            rounds,
        ) == if j >= bytes.len() {
            Flow::Jump(1, s)
        } else if bytes[j] != other[j] {
            Flow::Jump(1, s.with_let((base + 8) as u32, 1))
        } else {
            Flow::Jump(0, s.with_let((base + 8) as u32, 0).with_let((base + 7) as u32, j + 1))
        },
{
    let entry_key = (base + 5) as u32;
    let at = (base + 7) as u32;
    let mismatch = (base + 8) as u32;
    let code = compare_bytes(key, base, entry_key, at, mismatch, range);
    assert(code.len() == 25);
    if j >= bytes.len() {
        assert(run_from(code, 0, s, rounds) == Flow::Jump(1, s)) by {
            broadcast use group_straight;

        }
    } else {
        assert(run_from(code, 0, s, rounds) == run_from(code, 4, s, rounds)) by {
            broadcast use group_straight;

        }
        assert(reads(s.mem, k + 4 + j, 1, bytes[j]));
        assert(reads(s.mem, e + j, 1, other[j]));
        let t = s.pushed(bytes[j]);
        assert(run_from(code, 4, s, rounds) == run_from(code, 10, t, rounds)) by {
            broadcast use group_straight;

        }
        let u = t.pushed(other[j]);
        assert(run_from(code, 10, t, rounds) == run_from(code, 14, u, rounds)) by {
            broadcast use group_straight;

        }
        let differ = truth(bytes[j] != other[j]);
        let w = s.with_let(mismatch, differ);
        assert(run_from(code, 14, u, rounds) == run_from(code, 16, w, rounds)) by {
            broadcast use group_straight;

        }
        assert(run_from(code, 16, w, rounds) == if differ != 0 {
            Flow::Jump(1, w)
        } else {
            run_from(code, 20, w, rounds)
        }) by {
            broadcast use group_straight;

        }
        if bytes[j] == other[j] {
            assert(run_from(code, 20, w, rounds) == Flow::Jump(0, w.with_let(at, j + 1))) by {
                broadcast use group_straight;

            }
        }
    }
}

/// The comparison tells whether the keys differ.
proof fn lemma_compare_loop(
    key: u32,
    base: u32,
    range: TokenRange,
    s: Machine,
    k: int,
    bytes: Seq<int>,
    e: int,
    other: Seq<int>,
    j: int,
    rounds: nat,
) -> (end: Machine)
    requires
        key < base,
        base + 10 <= u32::MAX,
        s.lets.dom().contains(key) && s.lets[key] == k,
        s.lets.dom().contains(base) && s.lets[base] == bytes.len(),
        s.lets.dom().contains((base + 5) as u32) && s.lets[(base + 5) as u32] == e,
        s.lets.dom().contains((base + 7) as u32) && s.lets[(base + 7) as u32] == j,
        s.lets.dom().contains((base + 8) as u32) && s.lets[(base + 8) as u32] == 0,
        0 <= k,
        0 <= e,
        solid(s),
        s.free <= limit(),
        bytes_at(s.mem, k + 4, bytes),
        bytes_at(s.mem, e, other),
        other.len() == bytes.len(),
        0 <= j <= bytes.len(),
        forall|i: int| 0 <= i < j ==> #[trigger] bytes[i] == other[i],
        rounds > bytes.len() - j,
    ensures
        step(
            TaggedOpView {
                op: OpView::Loop {
                    result_ty: None,
                    body: compare_bytes(
                        key,
                        base,
                        (base + 5) as u32,
                        (base + 7) as u32,
                        (base + 8) as u32,
                        range,
                    ),
                },
                range,
            },
            s,
            rounds,
        ) == Flow::Jump(0, end),
        end.stack == s.stack,
        end.mem == s.mem,
        end.free == s.free,
        same_below(s, end, base + 7),
        end.lets.dom().contains((base + 8) as u32),
        end.lets[(base + 8) as u32] == truth(bytes != other),
        s.lets.dom().contains((base + 9) as u32) ==> end.lets.dom().contains((base + 9) as u32)
            && end.lets[(base + 9) as u32] == s.lets[(base + 9) as u32],
    decreases bytes.len() - j,
{
    let at = (base + 7) as u32;
    let mismatch = (base + 8) as u32;
    let body = compare_bytes(key, base, (base + 5) as u32, at, mismatch, range);
    let whole = TaggedOpView { op: OpView::Loop { result_ty: None, body }, range };
    let left = (rounds - 1) as nat;
    lemma_compare_round(key, base, range, s, k, bytes, e, other, j, left);
    if j >= bytes.len() {
        assert(bytes =~= other);
        assert(run(body, s, left) == Flow::Jump(1, s));
        s
    } else if bytes[j] != other[j] {
        let end = s.with_let(mismatch, 1);
        assert(run(body, s, left) == Flow::Jump(1, end));
        end
    } else {
        let next = s.with_let(mismatch, 0).with_let(at, j + 1);
        assert(run(body, s, left) == Flow::Jump(0, next));
        assert(solid(next));
        let end = lemma_compare_loop(
            key,
            base,
            range,
            next,
            k,
            bytes,
            e,
            other,
            j + 1,
            left,
        );
        assert(step(whole, s, rounds) == step(whole, next, left));
        assert(same_below(s, next, base + 7));
        lemma_same_chain(s, next, end, base + 7, base + 7);
        end
    }
}

/// What is done with one entry: where its key is the one that is looked for, its
/// value is the result.
pub open spec fn match_block(
    dict: u32,
    key: u32,
    base: u32,
    range: TokenRange,
) -> Seq<TaggedOpView> {
    match_head(
        dict,
        base,
        (base + 4) as u32,
        (base + 5) as u32,
        (base + 6) as u32,
        (base + 7) as u32,
        (base + 8) as u32,
        range,
    ) + (seq![
        loop_op(
            compare_bytes(
                key,
                base,
                (base + 5) as u32,
                (base + 7) as u32,
                (base + 8) as u32,
                range,
            ),
            range,
        ),
    ] + match_tail(
        (base + 3) as u32,
        (base + 6) as u32,
        (base + 8) as u32,
        (base + 9) as u32,
        range,
    ))
}

/// The slots of the entry at hand are set: nothing has been found yet.
pub open spec fn at_entry(
    s: Machine,
    base: u32,
    d: int,
    entries: Seq<DictEntry>,
    i: int,
) -> bool {
    &&& 0 <= i < entries.len()
    &&& s.lets.dom().contains((base + 2) as u32) && s.lets[(base + 2) as u32] == i
    &&& s.lets.dom().contains((base + 3) as u32) && s.lets[(base + 3) as u32] == 0
    &&& s.lets.dom().contains((base + 4) as u32) && s.lets[(base + 4) as u32]
        == entries[i].key.len()
    &&& s.lets.dom().contains((base + 6) as u32) && s.lets[(base + 6) as u32] == d + 16 + 16 * i
    &&& s.lets.dom().contains((base + 9) as u32)
}

/// The states differ in the slots behind the entry at hand only.
pub open spec fn only_result(s: Machine, t: Machine, base: u32) -> bool {
    &&& t.stack == s.stack
    &&& t.mem == s.mem
    &&& t.free == s.free
    &&& same_below(s, t, base + 3)
    &&& t.lets.dom().contains((base + 3) as u32)
    &&& t.lets.dom().contains((base + 9) as u32)
}

/// The comparison is set up where the lengths are the same.
proof fn lemma_match_head(
    dict: u32,
    base: u32,
    range: TokenRange,
    s: Machine,
    d: int,
    len: int,
    other: int,
    at: int,
    off: int,
    rounds: nat,
)
    requires
        dict < base,
        base + 10 <= u32::MAX,
        s.lets.dom().contains(dict) && s.lets[dict] == d,
        s.lets.dom().contains(base) && s.lets[base] == len,
        s.lets.dom().contains((base + 4) as u32) && s.lets[(base + 4) as u32] == other,
        s.lets.dom().contains((base + 6) as u32) && s.lets[(base + 6) as u32] == at,
        reads(s.mem, at, 4, off),
        0 <= d,
        0 <= off,
        d + off <= limit(),
    ensures
        run(
            match_head(
                dict,
                base,
                (base + 4) as u32,
                (base + 5) as u32,
                (base + 6) as u32,
                (base + 7) as u32,
                (base + 8) as u32,
                range,
            ),
            s,
            rounds,
        ) == if other != len {
            Flow::Jump(0, s)
        } else {
            Flow::Next(
                s.with_let((base + 5) as u32, d + off).with_let((base + 7) as u32, 0).with_let(
                    (base + 8) as u32,
                    0,
                ),
            )
        },
{
    let entry_key = (base + 5) as u32;
    let j = (base + 7) as u32;
    let mismatch = (base + 8) as u32;
    let head = match_head(
        dict,
        base,
        (base + 4) as u32,
        entry_key,
        (base + 6) as u32,
        j,
        mismatch,
        range,
    );
    assert(head.len() == 13);
    if other != len {
        assert(run_from(head, 0, s, rounds) == Flow::Jump(0, s)) by {
            broadcast use group_straight;

        }
    } else {
        assert(run_from(head, 0, s, rounds) == run_from(head, 4, s, rounds)) by {
            broadcast use group_straight;

        }
        let t1 = s.with_let(entry_key, d + off);
        assert(run_from(head, 4, s, rounds) == run_from(head, 9, t1, rounds)) by {
            broadcast use group_straight;

        }
        let t2 = t1.with_let(j, 0).with_let(mismatch, 0);
        assert(run_from(head, 9, t1, rounds) == Flow::Next(t2)) by {
            broadcast use group_straight;

        }
    }
}

/// The value is taken where the keys are the same.
proof fn lemma_match_tail(
    base: u32,
    range: TokenRange,
    s: Machine,
    differ: bool,
    at: int,
    value: int,
    rounds: nat,
)
    requires
        base + 10 <= u32::MAX,
        s.lets.dom().contains((base + 6) as u32) && s.lets[(base + 6) as u32] == at,
        s.lets.dom().contains((base + 8) as u32) && s.lets[(base + 8) as u32] == truth(differ),
        reads(s.mem, at + 8, 8, value),
    ensures
        run(
            match_tail(
                (base + 3) as u32,
                (base + 6) as u32,
                (base + 8) as u32,
                (base + 9) as u32,
                range,
            ),
            s,
            rounds,
        ) == if differ {
            Flow::Jump(0, s)
        } else {
            Flow::Next(s.with_let((base + 9) as u32, value).with_let((base + 3) as u32, 1))
        },
{
    let tail = match_tail(
        (base + 3) as u32,
        (base + 6) as u32,
        (base + 8) as u32,
        (base + 9) as u32,
        range,
    );
    assert(tail.len() == 9);
    if differ {
        assert(run_from(tail, 0, s, rounds) == Flow::Jump(0, s)) by {
            broadcast use group_straight;

        }
    } else {
        assert(run_from(tail, 0, s, rounds) == run_from(tail, 4, s, rounds)) by {
            broadcast use group_straight;

        }
        let t = s.with_let((base + 9) as u32, value).with_let((base + 3) as u32, 1);
        assert(run_from(tail, 4, s, rounds) == Flow::Next(t)) by {
            broadcast use group_straight;

        }
    }
}

/// An instruction hands on to the code behind it.
pub proof fn lemma_one_then(
    op: TaggedOpView,
    rest: Seq<TaggedOpView>,
    s: Machine,
    t: Machine,
    rounds: nat,
)
    requires
        step(op, s, rounds) == Flow::Next(t),
    ensures
        run(seq![op] + rest, s, rounds) == run(rest, t, rounds),
{
    let one = seq![op];
    assert(step(one[0], s, rounds) == Flow::Next(t));
    assert(run_from(one, 0, s, rounds) == run_from(one, 1, t, rounds));
    lemma_run_concat(one, rest, 0, s, rounds);
}

/// A loop that leaves by its enclosing block goes on behind it.
pub proof fn lemma_loop_left(
    body: Seq<TaggedOpView>,
    rest: Seq<TaggedOpView>,
    range: TokenRange,
    s: Machine,
    end: Machine,
    rounds: nat,
)
    requires
        step(
            TaggedOpView { op: OpView::Loop { result_ty: None, body }, range },
            s,
            rounds,
        ) == Flow::Jump(0, end),
    ensures
        run(seq![loop_op(body, range)] + rest, s, rounds) == run(rest, end, rounds),
{
    let whole = TaggedOpView { op: OpView::Loop { result_ty: None, body }, range };
    let outer = seq![whole];
    assert(run_from(outer, 0, s, rounds) == step(whole, s, rounds));
    assert(step(block_op(outer, range), s, rounds) == behind_block(
        run_from(outer, 0, s, rounds),
    ));
    lemma_one_then(loop_op(body, range), rest, s, end, rounds);
}

/// An entry is matched.
proof fn lemma_match_block(
    dict: u32,
    key: u32,
    base: u32,
    range: TokenRange,
    s: Machine,
    d: int,
    k: int,
    entries: Seq<DictEntry>,
    bytes: Seq<int>,
    i: int,
    rounds: nat,
) -> (t: Machine)
    requires
        probing(s, dict, key, base, d, k, entries, bytes),
        at_entry(s, base, d, entries, i),
        rounds > bytes.len(),
    ensures
        step(block_op(match_block(dict, key, base, range), range), s, rounds) == Flow::Next(t),
        only_result(s, t, base),
        t.lets[(base + 3) as u32] == truth(entries[i].key == bytes),
        entries[i].key == bytes ==> t.lets[(base + 9) as u32] == entries[i].value,
        entries[i].key != bytes ==> t.lets[(base + 9) as u32] == s.lets[(base + 9) as u32],
{
    let found = (base + 3) as u32;
    let entry_len = (base + 4) as u32;
    let entry_key = (base + 5) as u32;
    let entry = (base + 6) as u32;
    let j = (base + 7) as u32;
    let mismatch = (base + 8) as u32;
    let result = (base + 9) as u32;
    let head = match_head(dict, base, entry_len, entry_key, entry, j, mismatch, range);
    let looped = loop_op(compare_bytes(key, base, entry_key, j, mismatch, range), range);
    let tail = match_tail(found, entry, mismatch, result, range);
    let code = match_block(dict, key, base, range);
    assert(has_entry(s.mem, d, i, entries[i]));
    let off = choose|off: int| #[trigger] entry_holds(s.mem, d, i, entries[i], off);
    let other = entries[i].key;
    let e = d + off;
    let at = d + 16 + 16 * i;
    lemma_run_concat(head, seq![looped] + tail, 0, s, rounds);
    assert(step(block_op(code, range), s, rounds) == behind_block(run_from(code, 0, s, rounds)));
    lemma_match_head(
        dict,
        base,
        range,
        s,
        d,
        bytes.len() as int,
        other.len() as int,
        at,
        off,
        rounds,
    );
    if other.len() != bytes.len() {
        s
    } else {
        let t2 = s.with_let(entry_key, e).with_let(j, 0).with_let(mismatch, 0);
        assert(solid(t2));
        let t3 = lemma_compare_loop(key, base, range, t2, k, bytes, e, other, 0, rounds);
        let body = compare_bytes(key, base, entry_key, j, mismatch, range);
        lemma_loop_left(body, tail, range, t2, t3, rounds);
        assert(t2.lets.dom().contains(entry) == t3.lets.dom().contains(entry));
        assert(t2.lets.dom().contains(found) == t3.lets.dom().contains(found));
        assert(same_below(s, t2, base + 5));
        lemma_same_less(t2, t3, base + 5, base + 7);
        lemma_same_chain(s, t2, t3, base + 5, base + 5);
        lemma_same_less(s, t3, base + 3, base + 5);
        lemma_match_tail(base, range, t3, bytes != other, at, entries[i].value, rounds);
        if bytes != other {
            t3
        } else {
            let t = t3.with_let(result, entries[i].value).with_let(found, 1);
            assert(same_below(t3, t, base + 3));
            lemma_same_chain(s, t3, t, base + 3, base + 3);
            t
        }
    }
}

/// The state of a scan at entry `i`: where a key was found, the result is its
/// value.
pub open spec fn scanning(
    s0: Machine,
    s: Machine,
    dict: u32,
    key: u32,
    base: u32,
    d: int,
    k: int,
    entries: Seq<DictEntry>,
    bytes: Seq<int>,
    i: int,
    hit: Option<int>,
) -> bool {
    &&& probing(s, dict, key, base, d, k, entries, bytes)
    &&& s.stack == s0.stack
    &&& s.mem == s0.mem
    &&& s.free == s0.free
    &&& same_below(s0, s, base as int)
    &&& s.lets.dom().contains((base + 2) as u32) && s.lets[(base + 2) as u32] == i
    &&& s.lets.dom().contains((base + 3) as u32) && s.lets[(base + 3) as u32] == truth(hit is Some)
    &&& s.lets.dom().contains((base + 9) as u32)
    &&& hit matches Some(v) ==> s.lets[(base + 9) as u32] == v
}

/// The head of a round of the scan.
#[verifier::rlimit(50)]
#[verifier::spinoff_prover]
proof fn lemma_scan_head(
    dict: u32,
    base: u32,
    range: TokenRange,
    s: Machine,
    d: int,
    count: int,
    i: int,
    hit: bool,
    len: int,
    rounds: nat,
)
    requires
        dict < base,
        base + 10 <= u32::MAX,
        s.lets.dom().contains(dict) && s.lets[dict] == d,
        s.lets.dom().contains((base + 1) as u32) && s.lets[(base + 1) as u32] == count,
        s.lets.dom().contains((base + 2) as u32) && s.lets[(base + 2) as u32] == i,
        s.lets.dom().contains((base + 3) as u32) && s.lets[(base + 3) as u32] == truth(hit),
        0 <= d,
        0 <= i,
        !hit && i < count ==> d + 16 + 16 * i <= limit() && reads(
            s.mem,
            d + 16 + 16 * i + 4,
            4,
            len,
        ),
    ensures
        run(
            scan_head(
                dict,
                (base + 1) as u32,
                (base + 2) as u32,
                (base + 3) as u32,
                (base + 4) as u32,
                (base + 6) as u32,
                range,
            ),
            s,
            rounds,
        ) == if hit || i >= count {
            Flow::Jump(1, s)
        } else {
            Flow::Next(
                s.with_let((base + 6) as u32, d + 16 + 16 * i).with_let((base + 4) as u32, len),
            )
        },
{
    let count_slot = (base + 1) as u32;
    let at = (base + 2) as u32;
    let found = (base + 3) as u32;
    let entry_len = (base + 4) as u32;
    let entry = (base + 6) as u32;
    let head = scan_head(dict, count_slot, at, found, entry_len, entry, range);
    let done = seq![
        let_get(found, IrType::I32, range),
        sop(SimpleOp::ConstI32(0), range),
        sop(SimpleOp::Ne(IrType::I32), range),
        sop(SimpleOp::BrIf { label_depth: 1 }, range),
    ];
    let guard = exit_guard(at, count_slot, IrType::I32, 1, range);
    let address = seq![
        let_get(dict, IrType::I32, range),
        sop(SimpleOp::ConstI32(16), range),
        sop(SimpleOp::Add(IrType::I32), range),
        let_get(at, IrType::I32, range),
        sop(SimpleOp::ConstI32(16), range),
        sop(SimpleOp::Mul(IrType::I32), range),
        sop(SimpleOp::Add(IrType::I32), range),
        let_set(entry, IrType::I32, range),
    ];
    let length = seq![
        let_get(entry, IrType::I32, range),
        sop(SimpleOp::LoadI32AtAbsolute { offset: 4 }, range),
        let_set(entry_len, IrType::I32, range),
    ];
    assert(head =~= done + (guard + (address + length)));
    lemma_run_concat(done, guard + (address + length), 0, s, rounds);
    assert(run(done, s, rounds) == if hit {
        Flow::Jump(1, s)
    } else {
        Flow::Next(s)
    }) by {
        broadcast use group_straight;

        assert(run_from(done, 0, s, rounds) == run(done, s, rounds));
    }
    if !hit {
        lemma_guard_32(at, count_slot, address + length, range, s, rounds);
        if i < count {
            let u = s.with_let(entry, d + 16 + 16 * i);
            assert(run(address, s, rounds) == Flow::Next(u)) by {
                broadcast use group_straight;

                assert(run_from(address, 0, s, rounds) == run(address, s, rounds));
            }
            lemma_run_concat(address, length, 0, s, rounds);
            let w = u.with_let(entry_len, len);
            assert(run(length, u, rounds) == Flow::Next(w)) by {
                broadcast use group_straight;

                assert(run_from(length, 0, u, rounds) == run(length, u, rounds));
            }
        }
    }
}

/// The scan goes on to the next entry.
proof fn lemma_scan_tail(at: u32, range: TokenRange, s: Machine, rounds: nat)
    requires
        s.lets.dom().contains(at),
        0 <= s.lets[at] < i32::MAX,
    ensures
        run(scan_tail(at, range), s, rounds) == Flow::Jump(0, s.with_let(at, s.lets[at] + 1)),
{
    broadcast use group_straight;

    let code = scan_tail(at, range);
    assert(code.len() == 5);
    assert(run_from(code, 0, s, rounds) == run(code, s, rounds));
}

/// What runs in a round of the scan.
pub open spec fn scan_body(
    dict: u32,
    key: u32,
    base: u32,
    range: TokenRange,
) -> Seq<TaggedOpView> {
    scan_head(
        dict,
        (base + 1) as u32,
        (base + 2) as u32,
        (base + 3) as u32,
        (base + 4) as u32,
        (base + 6) as u32,
        range,
    ) + (seq![block_op(match_block(dict, key, base, range), range)] + scan_tail(
        (base + 2) as u32,
        range,
    ))
}

/// One round of the scan.
proof fn lemma_scan_round(
    dict: u32,
    key: u32,
    base: u32,
    range: TokenRange,
    s0: Machine,
    s: Machine,
    d: int,
    k: int,
    entries: Seq<DictEntry>,
    bytes: Seq<int>,
    i: int,
    rounds: nat,
) -> (next: Machine)
    requires
        scanning(s0, s, dict, key, base, d, k, entries, bytes, i, None),
        0 <= i < entries.len(),
        rounds > bytes.len(),
    ensures
        run(scan_body(dict, key, base, range), s, rounds) == Flow::Jump(0, next),
        scanning(
            s0,
            next,
            dict,
            key,
            base,
            d,
            k,
            entries,
            bytes,
            i + 1,
            if entries[i].key == bytes {
                Some(entries[i].value)
            } else {
                None
            },
        ),
{
    let at = (base + 2) as u32;
    let head = scan_head(
        dict,
        (base + 1) as u32,
        at,
        (base + 3) as u32,
        (base + 4) as u32,
        (base + 6) as u32,
        range,
    );
    let block = block_op(match_block(dict, key, base, range), range);
    let tail = scan_tail(at, range);
    assert(has_entry(s.mem, d, i, entries[i]));
    let off = choose|off: int| #[trigger] entry_holds(s.mem, d, i, entries[i], off);
    assert(s.mem.dom().contains(d + 16 + 16 * i));
    let len = entries[i].key.len() as int;
    lemma_scan_head(
        dict,
        base,
        range,
        s,
        d,
        entries.len() as int,
        i,
        false,
        len,
        rounds,
    );
    lemma_run_concat(head, seq![block] + tail, 0, s, rounds);
    let t1 = s.with_let((base + 6) as u32, d + 16 + 16 * i).with_let((base + 4) as u32, len);
    assert(solid(t1));
    assert(probing(t1, dict, key, base, d, k, entries, bytes));
    let t2 = lemma_match_block(
        dict,
        key,
        base,
        range,
        t1,
        d,
        k,
        entries,
        bytes,
        i,
        rounds,
    );
    lemma_one_then(block, tail, t1, t2, rounds);
    assert(t1.lets.dom().contains(at) == t2.lets.dom().contains(at));
    lemma_entry_counted(s, d, entries, i);
    let next = t2.with_let(at, i + 1);
    lemma_scan_tail(at, range, t2, rounds);
    lemma_scan_goes_on(dict, key, base, s0, s, t1, t2, d, k, entries, bytes, i);
    next
}

/// The number of entries is a 32-bit integer.
proof fn lemma_entry_counted(s: Machine, d: int, entries: Seq<DictEntry>, i: int)
    requires
        solid(s),
        s.free <= limit(),
        0 <= d,
        dict_holds(s.mem, d, entries),
        0 <= i < entries.len(),
    ensures
        entries.len() <= i32::MAX,
{
    let last = entries.len() - 1;
    assert(has_entry(s.mem, d, last, entries[last]));
    let o = choose|o: int| #[trigger] entry_holds(s.mem, d, last, entries[last], o);
    assert(s.mem.dom().contains(d + 16 + 16 * last));
}

/// The scan goes on behind an entry.
proof fn lemma_scan_goes_on(
    dict: u32,
    key: u32,
    base: u32,
    s0: Machine,
    s: Machine,
    t1: Machine,
    t2: Machine,
    d: int,
    k: int,
    entries: Seq<DictEntry>,
    bytes: Seq<int>,
    i: int,
)
    requires
        scanning(s0, s, dict, key, base, d, k, entries, bytes, i, None),
        0 <= i < entries.len(),
        t1 == s.with_let((base + 6) as u32, d + 16 + 16 * i).with_let(
            (base + 4) as u32,
            entries[i].key.len() as int,
        ),
        only_result(t1, t2, base),
        t2.lets[(base + 3) as u32] == truth(entries[i].key == bytes),
        entries[i].key == bytes ==> t2.lets[(base + 9) as u32] == entries[i].value,
    ensures
        scanning(
            s0,
            t2.with_let((base + 2) as u32, i + 1),
            dict,
            key,
            base,
            d,
            k,
            entries,
            bytes,
            i + 1,
            if entries[i].key == bytes {
                Some(entries[i].value)
            } else {
                None
            },
        ),
{
    assert(t1.lets.dom().contains(dict) == t2.lets.dom().contains(dict));
    assert(t1.lets.dom().contains(key) == t2.lets.dom().contains(key));
    assert(t1.lets.dom().contains(base) == t2.lets.dom().contains(base));
    assert(t1.lets.dom().contains((base + 1) as u32) == t2.lets.dom().contains((base + 1) as u32));
    let next = t2.with_let((base + 2) as u32, i + 1);
    assert(solid(next));
    assert(same_below(s, next, base as int)) by {
        assert forall|slot: u32| slot < base implies (#[trigger] s.lets.dom().contains(slot)
            == next.lets.dom().contains(slot) && s.lets[slot] == next.lets[slot]) by {
            assert(t1.lets.dom().contains(slot) == t2.lets.dom().contains(slot));
        }
    }
    lemma_same_chain(s0, s, next, base as int, base as int);
}

/// What has been found, or the value of the first entry at or behind `from`.
pub open spec fn hit_or_later(
    hit: Option<int>,
    entries: Seq<DictEntry>,
    bytes: Seq<int>,
    from: int,
) -> Option<int> {
    if hit is Some {
        hit
    } else {
        entry_value(entries, bytes, from)
    }
}

/// The scan finds the first entry with the key.
proof fn lemma_scan_loop(
    dict: u32,
    key: u32,
    base: u32,
    range: TokenRange,
    s0: Machine,
    s: Machine,
    d: int,
    k: int,
    entries: Seq<DictEntry>,
    bytes: Seq<int>,
    i: int,
    hit: Option<int>,
    rounds: nat,
) -> (end: Machine)
    requires
        scanning(s0, s, dict, key, base, d, k, entries, bytes, i, hit),
        0 <= i <= entries.len(),
        rounds > bytes.len() + 2 + entries.len() - i,
    ensures
        step(
            TaggedOpView {
                op: OpView::Loop { result_ty: None, body: scan_body(dict, key, base, range) },
                range,
            },
            s,
            rounds,
        ) == Flow::Jump(0, end),
        exists|at: int| #[trigger]
            scanning(
                s0,
                end,
                dict,
                key,
                base,
                d,
                k,
                entries,
                bytes,
                at,
                hit_or_later(hit, entries, bytes, i),
            ),
    decreases entries.len() - i,
{
    let body = scan_body(dict, key, base, range);
    let whole = TaggedOpView { op: OpView::Loop { result_ty: None, body }, range };
    let left = (rounds - 1) as nat;
    let head = scan_head(
        dict,
        (base + 1) as u32,
        (base + 2) as u32,
        (base + 3) as u32,
        (base + 4) as u32,
        (base + 6) as u32,
        range,
    );
    if hit is Some || i >= entries.len() {
        lemma_scan_head(
            dict,
            base,
            range,
            s,
            d,
            entries.len() as int,
            i,
            hit is Some,
            0,
            left,
        );
        let rest = seq![block_op(match_block(dict, key, base, range), range)] + scan_tail(
            (base + 2) as u32,
            range,
        );
        lemma_run_concat(head, rest, 0, s, left);
        assert(run(body, s, left) == Flow::Jump(1, s));
        assert(scanning(s0, s, dict, key, base, d, k, entries, bytes, i, hit));
        s
    } else {
        let next = lemma_scan_round(
            dict,
            key,
            base,
            range,
            s0,
            s,
            d,
            k,
            entries,
            bytes,
            i,
            left,
        );
        let now = if entries[i].key == bytes {
            Some(entries[i].value)
        } else {
            None
        };
        let end = lemma_scan_loop(
            dict,
            key,
            base,
            range,
            s0,
            next,
            d,
            k,
            entries,
            bytes,
            i + 1,
            now,
            left,
        );
        assert(run(body, s, left) == Flow::Jump(0, next));
        assert(step(whole, s, rounds) == step(whole, next, left));
        end
    }
}

/// The probe pushes the value of the entry with the key, and traps where there
/// is none.
#[verifier::rlimit(50)]
#[verifier::spinoff_prover]
proof fn lemma_probe(
    dict: u32,
    key: u32,
    base: u32,
    range: TokenRange,
    s: Machine,
    d: int,
    k: int,
    entries: Seq<DictEntry>,
    bytes: Seq<int>,
    rounds: nat,
)
    requires
        dict < key < base,
        base + 10 <= u32::MAX,
        s.lets.dom().contains(dict) && s.lets[dict] == d,
        s.lets.dom().contains(key) && s.lets[key] == k,
        0 <= d,
        0 <= k,
        solid(s),
        s.free <= limit(),
        dict_holds(s.mem, d, entries),
        text_holds(s.mem, k, bytes),
        rounds > bytes.len() + 2 + entries.len(),
    ensures
        match entry_value(entries, bytes, 0) {
            None => run(probe(dict, key, base, range), s, rounds) == Flow::Trap,
            Some(v) => {
                &&& run(probe(dict, key, base, range), s, rounds) matches Flow::Next(t)
                &&& t.stack == s.stack.push(v)
                &&& t.mem == s.mem
                &&& t.free == s.free
                &&& same_below(s, t, base as int)
            },
        },
{
    let found = (base + 3) as u32;
    let result = (base + 9) as u32;
    let setup = probe_setup(
        dict,
        key,
        base,
        (base + 1) as u32,
        (base + 2) as u32,
        found,
        result,
        range,
    );
    let body = scan_body(dict, key, base, range);
    let miss = block_op(miss_trap(found, range), range);
    let read = let_get(result, IrType::I64, range);
    let tail = seq![miss, read];
    let code = probe(dict, key, base, range);
    let head = match_head(
        dict,
        base,
        (base + 4) as u32,
        (base + 5) as u32,
        (base + 6) as u32,
        (base + 7) as u32,
        (base + 8) as u32,
        range,
    );
    let compare = loop_op(
        compare_bytes(
            key,
            base,
            (base + 5) as u32,
            (base + 7) as u32,
            (base + 8) as u32,
            range,
        ),
        range,
    );
    assert(head.push(compare) + match_tail(
        found,
        (base + 6) as u32,
        (base + 8) as u32,
        result,
        range,
    ) =~= match_block(dict, key, base, range));
    let block = block_op(match_block(dict, key, base, range), range);
    assert(scan_head(
        dict,
        (base + 1) as u32,
        (base + 2) as u32,
        found,
        (base + 4) as u32,
        (base + 6) as u32,
        range,
    ).push(block) + scan_tail((base + 2) as u32, range) =~= body);
    assert(code =~= setup + (seq![loop_op(body, range)] + tail));
    assert(reads(s.mem, k, 4, bytes.len() as int));
    assert(reads(s.mem, d, 4, entries.len() as int));
    let t1 = s.with_let(base, bytes.len() as int).with_let(
        (base + 1) as u32,
        entries.len() as int,
    );
    let t2 = t1.with_let((base + 2) as u32, 0).with_let(found, 0).with_let(result, 0);
    assert(run(setup, s, rounds) == Flow::Next(t2)) by {
        assert(setup.len() == 12);
        assert(run_from(setup, 0, s, rounds) == run_from(setup, 6, t1, rounds)) by {
            broadcast use group_straight;

        }
        assert(run_from(setup, 6, t1, rounds) == Flow::Next(t2)) by {
            broadcast use group_straight;

        }
    }
    lemma_run_concat(setup, seq![loop_op(body, range)] + tail, 0, s, rounds);
    assert(solid(t2));
    assert(same_below(s, t2, base as int));
    assert(scanning(s, t2, dict, key, base, d, k, entries, bytes, 0, None));
    let end = lemma_scan_loop(
        dict,
        key,
        base,
        range,
        s,
        t2,
        d,
        k,
        entries,
        bytes,
        0,
        None,
        rounds,
    );
    lemma_loop_left(body, tail, range, t2, end, rounds);
    let hit = entry_value(entries, bytes, 0);
    lemma_miss(found, range, end, hit is Some, rounds);
    if let Some(v) = hit {
        assert(step(tail[0], end, rounds) == Flow::Next(end));
        assert(run_from(tail, 0, end, rounds) == run_from(tail, 1, end, rounds));
        let t = end.pushed(v);
        assert(run_from(tail, 1, end, rounds) == Flow::Next(t)) by {
            broadcast use group_straight;

        }
        assert(same_below(end, t, base as int));
        lemma_same_chain(s, end, t, base as int, base as int);
    } else {
        assert(step(tail[0], end, rounds) == Flow::Trap);
    }
}

/// A miss traps.
proof fn lemma_miss(found: u32, range: TokenRange, s: Machine, hit: bool, rounds: nat)
    requires
        s.lets.dom().contains(found),
        s.lets[found] == truth(hit),
    ensures
        step(block_op(miss_trap(found, range), range), s, rounds) == if hit {
            Flow::Next(s)
        } else {
            Flow::Trap
        },
{
    let code = miss_trap(found, range);
    assert(code.len() == 5);
    assert(run_from(code, 0, s, rounds) == if hit {
        Flow::Jump(0, s)
    } else {
        Flow::Trap
    }) by {
        broadcast use group_straight;

    }
    assert(step(block_op(code, range), s, rounds) == behind_block(run_from(code, 0, s, rounds)));
}

/// Reading a dictionary takes the address of its record from the stack and
/// pushes the value of the entry whose key has the bytes of the text that is
/// looked for; where no entry has, it traps.
pub proof fn law_dict_index_finds_entry<L: SubLowering>(
    ctx: Map<u32, int>,
    low: L,
    index: Node,
    range: TokenRange,
    scope: Scope<'_>,
    at: SlotsView,
    entries: Seq<DictEntry>,
    bytes: Seq<int>,
    k: int,
    n: nat,
    s: Machine,
    rounds: nat,
)
    requires
        context_below(ctx, at.lets as int),
        low.lowered(index, scope, at.after(1)) matches Ok(f) && {
            &&& f.ty == Some(IrType::String)
            &&& at.lets < f.slots.lets
            &&& f.slots.lets + 11 <= u32::MAX
            &&& builds(ctx, f.ops, at.lets + 1, equals(k), 0, n)
        },
        holds(ctx, s),
        solid(s),
        s.free <= limit(),
        s.stack.len() > 0,
        0 <= s.operand(0),
        0 <= k,
        dict_holds(s.mem, s.operand(0), entries),
        text_holds(s.mem, k, bytes),
        rounds >= n,
        rounds > bytes.len() + 2 + entries.len(),
    ensures
        dict_index(low, index, range, scope, at) matches Ok(g) && match entry_value(
            entries,
            bytes,
            0,
        ) {
            None => run(g.ops, s, rounds) == Flow::Trap,
            Some(v) => {
                &&& run(g.ops, s, rounds) matches Flow::Next(t)
                &&& t.stack == s.stack.drop_last().push(v)
                &&& same_below(s, t, at.lets as int)
                &&& kept_memory(s, t)
            },
        },
{
    let dict = at.lets;
    let f = low.lowered(index, scope, at.after(1))->Ok_0;
    let key = f.slots.lets;
    let base = (key + 1) as u32;
    let g = dict_index(low, index, range, scope, at)->Ok_0;
    let d = s.operand(0);
    let first = seq![let_set(dict, IrType::I32, range)];
    let store = seq![let_set(key, IrType::I32, range)];
    let last = probe(dict, key, base, range);
    assert(g.ops =~= first + (f.ops + (store + last)));
    let bare = Machine { stack: s.stack.drop_last(), ..s };
    assert(s == bare.pushed(d)) by {
        assert(s.stack =~= s.stack.drop_last().push(d));
    }
    let t1 = bare.with_let(dict, d);
    assert(run(first, s, rounds) == Flow::Next(t1)) by {
        broadcast use group_straight;

        assert(run_from(first, 0, s, rounds) == Flow::Next(t1));
    }
    lemma_run_concat(first, f.ops + (store + last), 0, s, rounds);
    assert(same_below(s, t1, dict as int));
    lemma_still_holds(ctx, s, t1, dict as int);
    assert(solid(t1));
    let t2 = run(f.ops, t1, rounds)->Next_0;
    lemma_run_concat(f.ops, store + last, 0, t1, rounds);
    let rest = Machine { stack: bare.stack, ..t2 };
    assert(t2 == rest.pushed(k));
    let t3 = rest.with_let(key, k);
    assert(run(store, t2, rounds) == Flow::Next(t3)) by {
        broadcast use group_straight;

        assert(run_from(store, 0, t2, rounds) == Flow::Next(t3));
    }
    lemma_run_concat(store, last, 0, t2, rounds);
    assert(t1.lets.dom().contains(dict) == t2.lets.dom().contains(dict));
    assert forall|c: int| c < s.free implies {
        &&& #[trigger] s.mem.dom().contains(c) == t3.mem.dom().contains(c)
        &&& s.mem.dom().contains(c) ==> s.mem[c] == t3.mem[c]
    } by {
        assert(t1.mem.dom().contains(c) == t2.mem.dom().contains(c));
    }
    lemma_records_stay(s, t3, d, entries, k, bytes);
    lemma_probe(dict, key, base, range, t3, d, k, entries, bytes, rounds);
    if let Some(v) = entry_value(entries, bytes, 0) {
        let t = run(last, t3, rounds)->Next_0;
        assert(same_below(s, t, dict as int)) by {
            assert forall|slot: u32| slot < dict implies (#[trigger] s.lets.dom().contains(slot)
                == t.lets.dom().contains(slot) && s.lets[slot] == t.lets[slot]) by {
                assert(t1.lets.dom().contains(slot) == t2.lets.dom().contains(slot));
                assert(t3.lets.dom().contains(slot) == t.lets.dom().contains(slot));
            }
        }
        assert(kept_memory(s, t)) by {
            assert forall|c: int| c < s.free implies {
                &&& #[trigger] s.mem.dom().contains(c) == t.mem.dom().contains(c)
                &&& s.mem.dom().contains(c) ==> s.mem[c] == t.mem[c]
            } by {
                assert(t1.mem.dom().contains(c) == t2.mem.dom().contains(c));
            }
        }
    }
}

/// Records stay where the memory does.
proof fn lemma_records_stay(
    s: Machine,
    t: Machine,
    d: int,
    entries: Seq<DictEntry>,
    k: int,
    bytes: Seq<int>,
)
    requires
        solid(s),
        forall|c: int|
            c < s.free ==> {
                &&& #[trigger] s.mem.dom().contains(c) == t.mem.dom().contains(c)
                &&& s.mem.dom().contains(c) ==> s.mem[c] == t.mem[c]
            },
        dict_holds(s.mem, d, entries),
        text_holds(s.mem, k, bytes),
    ensures
        dict_holds(t.mem, d, entries),
        text_holds(t.mem, k, bytes),
{
    assert forall|a: int, w: nat, v: int| #[trigger] reads(s.mem, a, w, v) implies reads(
        t.mem,
        a,
        w,
        v,
    ) by {
        assert(s.mem.dom().contains(a) == t.mem.dom().contains(a));
    }
    assert forall|j: int| 0 <= j < bytes.len() implies #[trigger] reads(
        t.mem,
        k + 4 + j,
        1,
        bytes[j],
    ) by {
        assert(reads(s.mem, k + 4 + j, 1, bytes[j]));
    }
    assert forall|i: int| 0 <= i < entries.len() implies #[trigger] has_entry(
        t.mem,
        d,
        i,
        entries[i],
    ) by {
        assert(has_entry(s.mem, d, i, entries[i]));
        let off = choose|off: int| #[trigger] entry_holds(s.mem, d, i, entries[i], off);
        let bytes_of = entries[i].key;
        assert forall|j: int| 0 <= j < bytes_of.len() implies #[trigger] reads(
            t.mem,
            d + off + j,
            1,
            bytes_of[j],
        ) by {
            assert(reads(s.mem, d + off + j, 1, bytes_of[j]));
        }
        assert(entry_holds(t.mem, d, i, entries[i], off));
    }
}

} // verus!

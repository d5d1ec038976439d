//! Reads of names, elements and fields leave exactly one value.

use vstd::prelude::*;

use crate::ast::{Node, RefBase, TokenKey, TokenRange};
use crate::fragment::{
    let_get, let_set, slot_at, EnumVariantNarrowing, Scope, SlotsView, SubLowering,
};
use crate::index::{
    compare_bytes, dict_index, indexed, list_index, list_string_index, match_head, match_tail,
    miss_trap, narrow_address, probe, probe_setup, scan_head, scan_tail, wide_address,
};
use crate::ir::{sop, IrType, SimpleOp, TaggedOpView};
use crate::neat_ranges::{lemma_block, lemma_loop};
use crate::range_loop::{block_op, loop_op};
use crate::records::{record_ir_type, RecordLowering};
use crate::reference::{
    field_schema, field_walk, head_of, payload_field, payload_path, payload_read, reference,
    row_chain, tuple_payload, variable, walk_field, Frame,
};
use crate::shape::field_index;
use crate::stack::{
    group_tally, neat_lowering, neat_suffix, neat_value, op_tally, passing, settles, tally, Tally,
};
use crate::types::Schema;

verus! {

broadcast use group_tally;

// ---------------------------------------------------------------------------
// Elements of lists.
// ---------------------------------------------------------------------------

proof fn lemma_wide_address(base: u32, idx: u32, range: TokenRange, labels: nat)
    ensures
        tally(wide_address(base, idx, range), labels) == passing(0, 1),
{
    reveal_with_fuel(tally, 11);
    reveal_with_fuel(op_tally, 11);
}

proof fn lemma_narrow_address(base: u32, idx: u32, range: TokenRange, labels: nat)
    ensures
        tally(narrow_address(base, idx, range), labels) == passing(0, 1),
{
    reveal_with_fuel(tally, 9);
    reveal_with_fuel(op_tally, 9);
}

proof fn lemma_indexed_is_neat<L: SubLowering>(
    low: L,
    index: Node,
    wide: bool,
    load: SimpleOp,
    ty: IrType,
    range: TokenRange,
    scope: Scope<'_>,
    at: SlotsView,
)
    requires
        neat_lowering(low),
        load is LoadI32AtAbsolute || load is LoadI64AtAbsolute || load is LoadF64AtAbsolute,
    ensures
        neat_suffix(indexed(low, index, wide, load, ty, range, scope, at)),
{
    match indexed(low, index, wide, load, ty, range, scope, at) {
        Err(_) => {},
        Ok(f) => {
            assert forall|labels: nat| settles(#[trigger] tally(f.ops, labels), 1, 1) by {
                lemma_wide_address(at.lets, slot_at(at.lets, 1), range, labels);
                lemma_narrow_address(at.lets, slot_at(at.lets, 1), range, labels);
            }
        },
    }
}

/// An element read takes the list and leaves the element.
pub proof fn law_list_reads_are_neat<L: SubLowering>(
    low: L,
    index: Node,
    recv_ty: IrType,
    range: TokenRange,
    scope: Scope<'_>,
    at: SlotsView,
)
    requires
        neat_lowering(low),
    ensures
        neat_suffix(list_index(low, index, recv_ty, range, scope, at)),
        neat_suffix(list_string_index(low, index, range, scope, at)),
{
    lemma_indexed_is_neat(
        low,
        index,
        true,
        SimpleOp::LoadF64AtAbsolute { offset: 0 },
        IrType::F64,
        range,
        scope,
        at,
    );
    lemma_indexed_is_neat(
        low,
        index,
        true,
        SimpleOp::LoadI64AtAbsolute { offset: 0 },
        IrType::I64,
        range,
        scope,
        at,
    );
    lemma_indexed_is_neat(
        low,
        index,
        false,
        SimpleOp::LoadI32AtAbsolute { offset: 0 },
        IrType::String,
        range,
        scope,
        at,
    );
}

// ---------------------------------------------------------------------------
// Entries of dictionaries.
// ---------------------------------------------------------------------------

proof fn lemma_probe_setup(
    dict: u32,
    key: u32,
    klen: u32,
    n: u32,
    i: u32,
    found: u32,
    result: u32,
    range: TokenRange,
    labels: nat,
)
    ensures
        tally(probe_setup(dict, key, klen, n, i, found, result, range), labels) == passing(0, 0),
{
    reveal_with_fuel(tally, 14);
    reveal_with_fuel(op_tally, 14);
}

#[verifier::rlimit(60)]
proof fn lemma_compare_bytes(
    key: u32,
    klen: u32,
    entry_key: u32,
    j: u32,
    mismatch: u32,
    range: TokenRange,
    labels: nat,
)
    requires
        labels >= 2,
    ensures
        tally(compare_bytes(key, klen, entry_key, j, mismatch, range), labels) == (Tally::Gone {
            needs: 0,
        }),
{
    reveal_with_fuel(tally, 27);
    reveal_with_fuel(op_tally, 27);
}

#[verifier::rlimit(40)]
proof fn lemma_scan_head(
    dict: u32,
    n: u32,
    i: u32,
    found: u32,
    entry_len: u32,
    entry: u32,
    range: TokenRange,
    labels: nat,
)
    requires
        labels >= 2,
    ensures
        tally(scan_head(dict, n, i, found, entry_len, entry, range), labels) == passing(0, 0),
{
    reveal_with_fuel(tally, 21);
    reveal_with_fuel(op_tally, 21);
}

proof fn lemma_match_head(
    dict: u32,
    klen: u32,
    entry_len: u32,
    entry_key: u32,
    entry: u32,
    j: u32,
    mismatch: u32,
    range: TokenRange,
    labels: nat,
)
    requires
        labels >= 1,
    ensures
        tally(
            match_head(dict, klen, entry_len, entry_key, entry, j, mismatch, range),
            labels,
        ) == passing(0, 0),
{
    reveal_with_fuel(tally, 15);
    reveal_with_fuel(op_tally, 15);
}

proof fn lemma_match_tail(
    found: u32,
    entry: u32,
    mismatch: u32,
    result: u32,
    range: TokenRange,
    labels: nat,
)
    requires
        labels >= 1,
    ensures
        tally(match_tail(found, entry, mismatch, result, range), labels) == passing(0, 0),
{
    reveal_with_fuel(tally, 11);
    reveal_with_fuel(op_tally, 11);
}

proof fn lemma_scan_tail(i: u32, range: TokenRange, labels: nat)
    requires
        labels >= 1,
    ensures
        tally(scan_tail(i, range), labels) == (Tally::Gone { needs: 0 }),
{
    reveal_with_fuel(tally, 7);
    reveal_with_fuel(op_tally, 7);
}

proof fn lemma_miss_trap(found: u32, range: TokenRange, labels: nat)
    requires
        labels >= 1,
    ensures
        tally(miss_trap(found, range), labels) == (Tally::Gone { needs: 0 }),
{
    reveal_with_fuel(tally, 7);
    reveal_with_fuel(op_tally, 7);
}

/// A search leaves the entry's value and nothing else; it does not come back
/// from a miss.
pub proof fn law_probe_is_neat(dict: u32, key: u32, base: u32, range: TokenRange, labels: nat)
    ensures
        tally(probe(dict, key, base, range), labels) == passing(0, 1),
{
    let klen = base;
    let n = slot_at(base, 1);
    let i = slot_at(base, 2);
    let found = slot_at(base, 3);
    let entry_len = slot_at(base, 4);
    let entry_key = slot_at(base, 5);
    let entry = slot_at(base, 6);
    let j = slot_at(base, 7);
    let mismatch = slot_at(base, 8);
    let result = slot_at(base, 9);
    let bytes = compare_bytes(key, klen, entry_key, j, mismatch, range);
    lemma_compare_bytes(key, klen, entry_key, j, mismatch, range, labels + 5);
    lemma_loop(bytes, range, labels + 3);
    let matched = match_head(dict, klen, entry_len, entry_key, entry, j, mismatch, range).push(
        loop_op(bytes, range),
    ) + match_tail(found, entry, mismatch, result, range);
    lemma_match_head(
        dict,
        klen,
        entry_len,
        entry_key,
        entry,
        j,
        mismatch,
        range,
        labels + 3,
    );
    lemma_match_tail(found, entry, mismatch, result, range, labels + 3);
    lemma_block(matched, range, labels + 2);
    let scan = scan_head(dict, n, i, found, entry_len, entry, range).push(block_op(matched, range))
        + scan_tail(i, range);
    lemma_scan_head(dict, n, i, found, entry_len, entry, range, labels + 2);
    lemma_scan_tail(i, range, labels + 2);
    lemma_loop(scan, range, labels);
    lemma_miss_trap(found, range, labels + 1);
    lemma_block(miss_trap(found, range), range, labels);
    lemma_probe_setup(dict, key, klen, n, i, found, result, range, labels);
}

/// An entry read takes the dictionary and leaves the value of the key.
pub proof fn law_dict_read_is_neat<L: SubLowering>(
    low: L,
    index: Node,
    range: TokenRange,
    scope: Scope<'_>,
    at: SlotsView,
)
    requires
        neat_lowering(low),
    ensures
        neat_suffix(dict_index(low, index, range, scope, at)),
{
    match (low.lowered(index, scope, at.after(1)), dict_index(low, index, range, scope, at)) {
        (Ok(key), Ok(f)) => {
            assert forall|labels: nat| settles(#[trigger] tally(f.ops, labels), 1, 1) by {
                law_probe_is_neat(
                    at.lets,
                    key.slots.lets,
                    slot_at(key.slots.lets, 1),
                    range,
                    labels,
                );
            }
        },
        _ => {},
    }
}

// ---------------------------------------------------------------------------
// Names and paths.
// ---------------------------------------------------------------------------

/// A reference to a sibling field leaves one value.
pub proof fn law_reference_is_neat(
    base: RefBase,
    path: Seq<TokenKey>,
    range: TokenRange,
    scope: Scope<'_>,
    at: SlotsView,
)
    ensures
        neat_value(reference(base, path, range, scope, at)),
{
}

/// The read of a payload field takes the record and leaves the field.
pub proof fn lemma_payload_field_read_is_neat<L: RecordLowering>(
    low: L,
    field: Seq<char>,
    n: EnumVariantNarrowing<'_>,
    base: IrType,
    range: TokenRange,
    at: SlotsView,
)
    ensures
        neat_suffix(payload_read(low, field, n, base, range, at)),
{
    match payload_read(low, field, n, base, range, at) {
        Err(_) => {},
        Ok(f) => {
            assert forall|labels: nat| settles(#[trigger] tally(f.ops, labels), 1, 1) by {
                reveal_with_fuel(tally, 4);
                reveal_with_fuel(op_tally, 4);
            }
        },
    }
}

proof fn lemma_payload_read_is_neat<L: RecordLowering>(
    low: L,
    tail: Seq<TokenKey>,
    n: EnumVariantNarrowing<'_>,
    base: IrType,
    range: TokenRange,
    at: SlotsView,
)
    ensures
        neat_suffix(payload_path(low, tail, n, base, range, at)),
{
    match payload_field(tail[0], tuple_payload(n)) {
        None => {},
        Some(field) => {
            lemma_payload_field_read_is_neat(low, field, n, base, range, at);
        },
    }
}

proof fn lemma_row_chain_is_neat<L: SubLowering>(
    low: L,
    path: Seq<TokenKey>,
    range: TokenRange,
    scope: Scope<'_>,
    done: Seq<TaggedOpView>,
    at: SlotsView,
    from: int,
)
    requires
        neat_lowering(low),
        forall|labels: nat| settles(#[trigger] tally(done, labels), 0, 1),
    ensures
        neat_value(row_chain(low, path, range, scope, done, at, from)),
    decreases path.len() - from,
{
    if 0 <= from < path.len() {
        match path[from] {
            TokenKey::Dynamic(node, optional) => {
                law_list_reads_are_neat(low, node, IrType::ListInt, range, scope, at);
                match list_index(low, node, IrType::ListInt, range, scope, at) {
                    Err(_) => {},
                    Ok(f) => {
                        let more = done + f.ops;
                        assert forall|labels: nat| settles(
                            #[trigger] tally(more, labels),
                            0,
                            1,
                        ) by {
                            assert(settles(tally(done, labels), 0, 1));
                            assert(settles(tally(f.ops, labels), 1, 1));
                        }
                        lemma_row_chain_is_neat(
                            low,
                            path,
                            range,
                            scope,
                            more,
                            f.slots,
                            from + 1,
                        );
                        let handle = f.slots.lets;
                        let kept = more.push(let_set(handle, IrType::ListInt, range)).push(
                            let_get(handle, IrType::ListInt, range),
                        );
                        assert forall|labels: nat| settles(
                            #[trigger] tally(kept, labels),
                            0,
                            1,
                        ) by {
                            assert(settles(tally(more, labels), 0, 1));
                        }
                        lemma_row_chain_is_neat(
                            low,
                            path,
                            range,
                            scope,
                            kept,
                            f.slots.after(1),
                            from + 1,
                        );
                    },
                }
            },
            _ => {},
        }
    }
}

proof fn lemma_field_walk_is_neat<L: RecordLowering>(
    low: L,
    path: Seq<TokenKey>,
    range: TokenRange,
    schema: Option<Schema>,
    ty: IrType,
    done: Seq<TaggedOpView>,
    at: SlotsView,
    from: int,
)
    requires
        forall|labels: nat| settles(#[trigger] tally(done, labels), 0, 1),
    ensures
        neat_value(field_walk(low, path, range, schema, ty, done, at, from)),
    decreases path.len() - from,
{
    if 0 <= from < path.len() {
        match schema {
            None => {},
            Some(s) => match (walk_field(s, path[from]), low.layout(s)) {
                (Ok(field), Ok(layout)) => match field_index(s.fields@, field, 0) {
                    None => {},
                    Some(i) => match record_ir_type(s.fields@[i].ty) {
                        None => {},
                        Some(irt) => {
                            let more = done.push(
                                sop(
                                    SimpleOp::LoadFieldAtAbsolute {
                                        offset: layout.fields[i].offset,
                                        ty: irt,
                                    },
                                    range,
                                ),
                            );
                            assert forall|labels: nat| settles(
                                #[trigger] tally(more, labels),
                                0,
                                1,
                            ) by {
                                assert(settles(tally(done, labels), 0, 1));
                            }
                            lemma_field_walk_is_neat(
                                low,
                                path,
                                range,
                                field_schema(s.fields@[i].ty),
                                irt,
                                more,
                                at,
                                from + 1,
                            );
                        },
                    },
                },
                _ => {},
            },
        }
    }
}

/// A variable path leaves one value: the value of its head, replaced by each
/// read behind it.
pub proof fn law_variable_is_neat<L: RecordLowering>(
    low: L,
    frame: Frame<'_>,
    path: Seq<TokenKey>,
    range: TokenRange,
    scope: Scope<'_>,
    at: SlotsView,
)
    requires
        neat_lowering(low),
    ensures
        neat_value(variable(low, frame, path, range, scope, at)),
{
    if path.len() > 0 && path[0] is String {
        let name = path[0]->String_0@;
        match head_of(frame, name, scope) {
            None => {},
            Some(head) => {
                assert(op_tally(sop(head.op, range), 0) == passing(0, 1));
                let first = seq![sop(head.op, range)];
                assert forall|labels: nat| settles(#[trigger] tally(first, labels), 0, 1) by {
                    assert(op_tally(sop(head.op, range), labels) == passing(0, 1));
                }
                match scope.narrowed(name) {
                    Some(n) => {
                        lemma_payload_read_is_neat(
                            low,
                            path.skip(1),
                            n,
                            head.ty,
                            range,
                            at,
                        );
                    },
                    None => {
                        lemma_row_chain_is_neat(low, path, range, scope, first, at, 1);
                        lemma_field_walk_is_neat(
                            low,
                            path,
                            range,
                            head.schema,
                            head.ty,
                            first,
                            at,
                            1,
                        );
                        let node = path[1]->Dynamic_0;
                        law_list_reads_are_neat(low, node, IrType::ListFloat, range, scope, at);
                        law_list_reads_are_neat(low, node, IrType::ListInt, range, scope, at);
                        law_dict_read_is_neat(low, node, range, scope, at);
                    },
                }
            },
        }
    }
}

} // verus!

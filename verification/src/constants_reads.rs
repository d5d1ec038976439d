//! Reads of names, elements and fields refer only to what is interned.

use vstd::prelude::*;

use crate::ast::{Node, RefBase, TokenKey, TokenRange};
use crate::constants::{group_known, keeping, kept, known, op_known};
use crate::fragment::{
    let_get, let_set, slot_at, EnumVariantNarrowing, Scope, SlotsView, SubLowering,
};
use crate::index::{
    compare_bytes, dict_index, indexed, list_index, list_string_index, match_head, match_tail,
    miss_trap, probe, probe_setup, scan_head, scan_tail,
};
use crate::ir::{sop, IrType, SimpleOp, TaggedOpView};
use crate::range_loop::{block_op, loop_op};
use crate::records::{record_ir_type, RecordLowering};
use crate::reference::{
    field_schema, field_walk, head_of, payload_field, payload_path, payload_read, reference,
    row_chain, tuple_payload, variable, walk_field, Frame,
};
use crate::shape::field_index;
use crate::types::Schema;

verus! {

broadcast use group_known;

proof fn lemma_indexed_keeps<L: SubLowering>(
    low: L,
    index: Node,
    wide: bool,
    load: SimpleOp,
    ty: IrType,
    range: TokenRange,
    scope: Scope<'_>,
    at: SlotsView,
)
    requires
        keeping(low),
    ensures
        kept(at, indexed(low, index, wide, load, ty, range, scope, at)),
{
}

/// An element read refers to what is interned.
pub proof fn law_list_reads_keep<L: SubLowering>(
    low: L,
    index: Node,
    recv_ty: IrType,
    range: TokenRange,
    scope: Scope<'_>,
    at: SlotsView,
)
    requires
        keeping(low),
    ensures
        kept(at, list_index(low, index, recv_ty, range, scope, at)),
        kept(at, list_string_index(low, index, range, scope, at)),
{
    let float = SimpleOp::LoadF64AtAbsolute { offset: 0 };
    let integer = SimpleOp::LoadI64AtAbsolute { offset: 0 };
    let handle = SimpleOp::LoadI32AtAbsolute { offset: 0 };
    lemma_indexed_keeps(low, index, true, float, IrType::F64, range, scope, at);
    lemma_indexed_keeps(low, index, true, integer, IrType::I64, range, scope, at);
    lemma_indexed_keeps(low, index, false, handle, IrType::String, range, scope, at);
}

proof fn lemma_probe_known(dict: u32, key: u32, base: u32, range: TokenRange, at: SlotsView)
    ensures
        known(probe(dict, key, base, range), at),
{
    let klen = base;
    let n = slot_at(base, 1);
    let i = slot_at(base, 2);
    let found = slot_at(base, 3);
    let entry_len = slot_at(base, 4);
    let entry_key = slot_at(base, 5);
    let entry = slot_at(base, 6);
    let j = slot_at(base, 7);
    let mismatch = slot_at(base, 8);
    let result = slot_at(base, 9);
    let bytes = compare_bytes(key, klen, entry_key, j, mismatch, range);
    assert(known(bytes, at));
    let head = match_head(dict, klen, entry_len, entry_key, entry, j, mismatch, range);
    assert(known(head, at));
    assert(known(match_tail(found, entry, mismatch, result, range), at));
    let matched = head.push(loop_op(bytes, range)) + match_tail(
        found,
        entry,
        mismatch,
        result,
        range,
    );
    assert(known(matched, at));
    assert(known(scan_head(dict, n, i, found, entry_len, entry, range), at));
    assert(known(scan_tail(i, range), at));
    let scan = scan_head(dict, n, i, found, entry_len, entry, range).push(
        block_op(matched, range),
    ) + scan_tail(i, range);
    assert(known(scan, at));
    assert(known(miss_trap(found, range), at));
    assert(known(probe_setup(dict, key, klen, n, i, found, result, range), at));
    assert(op_known(loop_op(scan, range), at));
    assert(op_known(block_op(miss_trap(found, range), range), at));
}

/// An entry read refers to what is interned.
pub proof fn law_dict_read_keeps<L: SubLowering>(
    low: L,
    index: Node,
    range: TokenRange,
    scope: Scope<'_>,
    at: SlotsView,
)
    requires
        keeping(low),
    ensures
        kept(at, dict_index(low, index, range, scope, at)),
{
    match (low.lowered(index, scope, at.after(1)), dict_index(low, index, range, scope, at)) {
        (Ok(key), Ok(f)) => {
            lemma_probe_known(
                at.lets,
                key.slots.lets,
                slot_at(key.slots.lets, 1),
                range,
                f.slots,
            );
        },
        _ => {},
    }
}

/// A reference to a sibling field refers to what is interned.
pub proof fn law_reference_keeps(
    base: RefBase,
    path: Seq<TokenKey>,
    range: TokenRange,
    scope: Scope<'_>,
    at: SlotsView,
)
    ensures
        kept(at, reference(base, path, range, scope, at)),
{
}

/// The read of a payload field refers to what is interned.
pub proof fn lemma_payload_field_read_keeps<L: RecordLowering>(
    low: L,
    field: Seq<char>,
    n: EnumVariantNarrowing<'_>,
    base: IrType,
    range: TokenRange,
    at: SlotsView,
)
    ensures
        kept(at, payload_read(low, field, n, base, range, at)),
{
}

proof fn lemma_payload_read_keeps<L: RecordLowering>(
    low: L,
    tail: Seq<TokenKey>,
    n: EnumVariantNarrowing<'_>,
    base: IrType,
    range: TokenRange,
    at: SlotsView,
)
    ensures
        kept(at, payload_path(low, tail, n, base, range, at)),
{
    match payload_field(tail[0], tuple_payload(n)) {
        None => {},
        Some(field) => {
            lemma_payload_field_read_keeps(low, field, n, base, range, at);
        },
    }
}

proof fn lemma_row_chain_keeps<L: SubLowering>(
    low: L,
    path: Seq<TokenKey>,
    range: TokenRange,
    scope: Scope<'_>,
    done: Seq<TaggedOpView>,
    at: SlotsView,
    from: int,
)
    requires
        keeping(low),
        known(done, at),
    ensures
        kept(at, row_chain(low, path, range, scope, done, at, from)),
    decreases path.len() - from,
{
    if 0 <= from < path.len() {
        match path[from] {
            TokenKey::Dynamic(node, _) => {
                law_list_reads_keep(low, node, IrType::ListInt, range, scope, at);
                match list_index(low, node, IrType::ListInt, range, scope, at) {
                    Err(_) => {},
                    Ok(f) => {
                        let more = done + f.ops;
                        lemma_row_chain_keeps(low, path, range, scope, more, f.slots, from + 1);
                        let handle = f.slots.lets;
                        lemma_row_chain_keeps(
                            low,
                            path,
                            range,
                            scope,
                            more.push(let_set(handle, IrType::ListInt, range)).push(
                                let_get(handle, IrType::ListInt, range),
                            ),
                            f.slots.after(1),
                            from + 1,
                        );
                    },
                }
            },
            _ => {},
        }
    }
}

proof fn lemma_field_walk_keeps<L: RecordLowering>(
    low: L,
    path: Seq<TokenKey>,
    range: TokenRange,
    schema: Option<Schema>,
    ty: IrType,
    done: Seq<TaggedOpView>,
    at: SlotsView,
    from: int,
)
    requires
        known(done, at),
    ensures
        kept(at, field_walk(low, path, range, schema, ty, done, at, from)),
    decreases path.len() - from,
{
    if 0 <= from < path.len() {
        match schema {
            None => {},
            Some(s) => match (walk_field(s, path[from]), low.layout(s)) {
                (Ok(field), Ok(layout)) => match field_index(s.fields@, field, 0) {
                    None => {},
                    Some(i) => match record_ir_type(s.fields@[i].ty) {
                        None => {},
                        Some(irt) => {
                            let load = SimpleOp::LoadFieldAtAbsolute {
                                offset: layout.fields[i].offset,
                                ty: irt,
                            };
                            lemma_field_walk_keeps(
                                low,
                                path,
                                range,
                                field_schema(s.fields@[i].ty),
                                irt,
                                done.push(sop(load, range)),
                                at,
                                from + 1,
                            );
                        },
                    },
                },
                _ => {},
            },
        }
    }
}

/// A variable path refers to what is interned.
pub proof fn law_variable_keeps<L: RecordLowering>(
    low: L,
    frame: Frame<'_>,
    path: Seq<TokenKey>,
    range: TokenRange,
    scope: Scope<'_>,
    at: SlotsView,
)
    requires
        keeping(low),
    ensures
        kept(at, variable(low, frame, path, range, scope, at)),
{
    if path.len() > 0 && path[0] is String {
        let name = path[0]->String_0@;
        match head_of(frame, name, scope) {
            None => {},
            Some(head) => {
                let first = seq![sop(head.op, range)];
                assert(known(first, at));
                match scope.narrowed(name) {
                    Some(n) => {
                        lemma_payload_read_keeps(low, path.skip(1), n, head.ty, range, at);
                    },
                    None => {
                        lemma_row_chain_keeps(low, path, range, scope, first, at, 1);
                        lemma_field_walk_keeps(
                            low,
                            path,
                            range,
                            head.schema,
                            head.ty,
                            first,
                            at,
                            1,
                        );
                        let node = path[1]->Dynamic_0;
                        law_list_reads_keep(low, node, IrType::ListFloat, range, scope, at);
                        law_list_reads_keep(low, node, IrType::ListInt, range, scope, at);
                        law_dict_read_keeps(low, node, range, scope, at);
                    },
                }
            },
        }
    }
}

} // verus!

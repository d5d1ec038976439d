//! Reads of names, elements and fields have slots of their own.

use vstd::prelude::*;

use crate::ast::{Node, RefBase, TokenKey, TokenRange};
use crate::fragment::{
    let_get, let_set, slot_at, EnumVariantNarrowing, Scope, SlotsView, SubLowering,
};
use crate::fresh::{
    fresh, freshening, freshly, given, group_owned, one_typed, op_owned, owned, passes,
};
use crate::index::{
    compare_bytes, dict_index, indexed, list_index, list_string_index, match_head, match_tail,
    miss_trap, probe, probe_setup, scan_head, scan_tail,
};
use crate::ir::{sop, IrType, SimpleOp, TaggedOpView};
use crate::range_loop::{block_op, loop_op};
use crate::records::{record_ir_type, RecordLowering};
use crate::reference::{
    field_schema, field_walk, head_of, payload_field, payload_path, payload_read, reference,
    row_chain, tuple_payload, variable, walk_field, Frame,
};
use crate::shape::field_index;
use crate::types::Schema;

verus! {

broadcast use group_owned;

proof fn lemma_indexed_is_fresh<L: SubLowering>(
    low: L,
    index: Node,
    wide: bool,
    load: SimpleOp,
    ty: IrType,
    range: TokenRange,
    scope: Scope<'_>,
    at: SlotsView,
)
    requires
        freshening(low),
        load is LoadF64AtAbsolute || load is LoadI64AtAbsolute || load is LoadI32AtAbsolute,
    ensures
        fresh(at, indexed(low, index, wide, load, ty, range, scope, at)),
{
}

/// An element read has slots of its own.
pub proof fn law_list_reads_are_fresh<L: SubLowering>(
    low: L,
    index: Node,
    recv_ty: IrType,
    range: TokenRange,
    scope: Scope<'_>,
    at: SlotsView,
)
    requires
        freshening(low),
    ensures
        fresh(at, list_index(low, index, recv_ty, range, scope, at)),
        fresh(at, list_string_index(low, index, range, scope, at)),
{
    let float = SimpleOp::LoadF64AtAbsolute { offset: 0 };
    let integer = SimpleOp::LoadI64AtAbsolute { offset: 0 };
    let handle = SimpleOp::LoadI32AtAbsolute { offset: 0 };
    lemma_indexed_is_fresh(low, index, true, float, IrType::F64, range, scope, at);
    lemma_indexed_is_fresh(low, index, true, integer, IrType::I64, range, scope, at);
    lemma_indexed_is_fresh(low, index, false, handle, IrType::String, range, scope, at);
}

proof fn lemma_probe_owned(
    dict: u32,
    key: u32,
    base: u32,
    range: TokenRange,
    a: SlotsView,
    b: SlotsView,
)
    requires
        given(base, a.lets, b.lets),
        b.lets < u32::MAX ==> base + 10 <= b.lets,
    ensures
        owned(probe(dict, key, base, range), a, b),
{
    let klen = base;
    let n = slot_at(base, 1);
    let i = slot_at(base, 2);
    let found = slot_at(base, 3);
    let entry_len = slot_at(base, 4);
    let entry_key = slot_at(base, 5);
    let entry = slot_at(base, 6);
    let j = slot_at(base, 7);
    let mismatch = slot_at(base, 8);
    let result = slot_at(base, 9);
    let bytes = compare_bytes(key, klen, entry_key, j, mismatch, range);
    assert(owned(bytes, a, b));
    let head = match_head(dict, klen, entry_len, entry_key, entry, j, mismatch, range);
    assert(owned(head, a, b));
    assert(owned(match_tail(found, entry, mismatch, result, range), a, b));
    let matched = head.push(loop_op(bytes, range)) + match_tail(
        found,
        entry,
        mismatch,
        result,
        range,
    );
    assert(owned(matched, a, b));
    assert(owned(scan_head(dict, n, i, found, entry_len, entry, range), a, b));
    assert(owned(scan_tail(i, range), a, b));
    let scan = scan_head(dict, n, i, found, entry_len, entry, range).push(
        block_op(matched, range),
    ) + scan_tail(i, range);
    assert(owned(scan, a, b));
    assert(owned(miss_trap(found, range), a, b));
    assert(owned(probe_setup(dict, key, klen, n, i, found, result, range), a, b));
    assert(op_owned(loop_op(scan, range), a, b));
    assert(op_owned(block_op(miss_trap(found, range), range), a, b));
}

/// An entry read has slots of its own.
pub proof fn law_dict_read_is_fresh<L: SubLowering>(
    low: L,
    index: Node,
    range: TokenRange,
    scope: Scope<'_>,
    at: SlotsView,
)
    requires
        freshening(low),
    ensures
        fresh(at, dict_index(low, index, range, scope, at)),
{
    match (low.lowered(index, scope, at.after(1)), dict_index(low, index, range, scope, at)) {
        (Ok(key), Ok(f)) => {
            lemma_probe_owned(
                at.lets,
                key.slots.lets,
                slot_at(key.slots.lets, 1),
                range,
                at,
                f.slots,
            );
        },
        _ => {},
    }
}

/// A reference to a sibling field has slots of its own.
pub proof fn law_reference_is_fresh(
    base: RefBase,
    path: Seq<TokenKey>,
    range: TokenRange,
    scope: Scope<'_>,
    at: SlotsView,
)
    ensures
        fresh(at, reference(base, path, range, scope, at)),
{
}

/// The read of a payload field has slots of its own.
pub proof fn lemma_payload_field_read_is_fresh<L: RecordLowering>(
    low: L,
    field: Seq<char>,
    n: EnumVariantNarrowing<'_>,
    base: IrType,
    range: TokenRange,
    at: SlotsView,
)
    ensures
        fresh(at, payload_read(low, field, n, base, range, at)),
{
}

proof fn lemma_payload_read_is_fresh<L: RecordLowering>(
    low: L,
    tail: Seq<TokenKey>,
    n: EnumVariantNarrowing<'_>,
    base: IrType,
    range: TokenRange,
    at: SlotsView,
)
    ensures
        fresh(at, payload_path(low, tail, n, base, range, at)),
{
    match payload_field(tail[0], tuple_payload(n)) {
        None => {},
        Some(field) => {
            lemma_payload_field_read_is_fresh(low, field, n, base, range, at);
        },
    }
}

proof fn lemma_row_chain_is_fresh<L: SubLowering>(
    low: L,
    path: Seq<TokenKey>,
    range: TokenRange,
    scope: Scope<'_>,
    done: Seq<TaggedOpView>,
    first: SlotsView,
    at: SlotsView,
    from: int,
)
    requires
        freshening(low),
        passes(first, at),
        owned(done, first, at),
        at.lets < u32::MAX ==> one_typed(done),
    ensures
        freshly(first, at, row_chain(low, path, range, scope, done, at, from)),
    decreases path.len() - from,
{
    if 0 <= from < path.len() {
        match path[from] {
            TokenKey::Dynamic(node, _) => {
                law_list_reads_are_fresh(low, node, IrType::ListInt, range, scope, at);
                match list_index(low, node, IrType::ListInt, range, scope, at) {
                    Err(_) => {},
                    Ok(f) => {
                        let more = done + f.ops;
                        lemma_row_chain_is_fresh(
                            low,
                            path,
                            range,
                            scope,
                            more,
                            first,
                            f.slots,
                            from + 1,
                        );
                        let handle = f.slots.lets;
                        lemma_row_chain_is_fresh(
                            low,
                            path,
                            range,
                            scope,
                            more.push(let_set(handle, IrType::ListInt, range)).push(
                                let_get(handle, IrType::ListInt, range),
                            ),
                            first,
                            f.slots.after(1),
                            from + 1,
                        );
                    },
                }
            },
            _ => {},
        }
    }
}

proof fn lemma_field_walk_is_fresh<L: RecordLowering>(
    low: L,
    path: Seq<TokenKey>,
    range: TokenRange,
    schema: Option<Schema>,
    ty: IrType,
    done: Seq<TaggedOpView>,
    first: SlotsView,
    at: SlotsView,
    from: int,
)
    requires
        passes(first, at),
        owned(done, first, at),
        at.lets < u32::MAX ==> one_typed(done),
    ensures
        freshly(first, at, field_walk(low, path, range, schema, ty, done, at, from)),
    decreases path.len() - from,
{
    if 0 <= from < path.len() {
        match schema {
            None => {},
            Some(s) => match (walk_field(s, path[from]), low.layout(s)) {
                (Ok(field), Ok(layout)) => match field_index(s.fields@, field, 0) {
                    None => {},
                    Some(i) => match record_ir_type(s.fields@[i].ty) {
                        None => {},
                        Some(irt) => {
                            let load = SimpleOp::LoadFieldAtAbsolute {
                                offset: layout.fields[i].offset,
                                ty: irt,
                            };
                            lemma_field_walk_is_fresh(
                                low,
                                path,
                                range,
                                field_schema(s.fields@[i].ty),
                                irt,
                                done.push(sop(load, range)),
                                first,
                                at,
                                from + 1,
                            );
                        },
                    },
                },
                _ => {},
            },
        }
    }
}

/// A variable path has slots of its own.
pub proof fn law_variable_is_fresh<L: RecordLowering>(
    low: L,
    frame: Frame<'_>,
    path: Seq<TokenKey>,
    range: TokenRange,
    scope: Scope<'_>,
    at: SlotsView,
)
    requires
        freshening(low),
    ensures
        fresh(at, variable(low, frame, path, range, scope, at)),
{
    if path.len() > 0 && path[0] is String {
        let name = path[0]->String_0@;
        match head_of(frame, name, scope) {
            None => {},
            Some(head) => {
                let first = seq![sop(head.op, range)];
                assert(owned(first, at, at));
                match scope.narrowed(name) {
                    Some(n) => {
                        lemma_payload_read_is_fresh(low, path.skip(1), n, head.ty, range, at);
                    },
                    None => {
                        lemma_row_chain_is_fresh(low, path, range, scope, first, at, at, 1);
                        lemma_field_walk_is_fresh(
                            low,
                            path,
                            range,
                            head.schema,
                            head.ty,
                            first,
                            at,
                            at,
                            1,
                        );
                        let node = path[1]->Dynamic_0;
                        law_list_reads_are_fresh(low, node, IrType::ListFloat, range, scope, at);
                        law_list_reads_are_fresh(low, node, IrType::ListInt, range, scope, at);
                        law_dict_read_is_fresh(low, node, range, scope, at);
                    },
                }
            },
        }
    }
}

} // verus!

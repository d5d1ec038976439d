//! Indexing of lists and string-keyed dictionaries.
//!
//! Every function here lowers what follows the receiver, whose handle is
//! already on the stack.

use vstd::prelude::*;

use crate::ast::{Node, TokenRange};
use crate::error::{unsupported, ErrorView, LoweringError};
use crate::fragment::{
    emit_get, emit_set, int_top, let_get, let_set, lower_int, outcome, slot, slot_at, Fragment,
    FragmentView, Scope, Slots, SlotsView, SubLowering,
};
use crate::ir::{
    emit_all, emit_simple, ops_view, sop, IrType, SimpleOp, TaggedOp, TaggedOpView, TrapKind,
};
use crate::materialize::ALIGN_MASK;
use crate::range_loop::{block_op, emit_block, emit_loop, loop_op};
use crate::text::join3;

verus! {

// ---------------------------------------------------------------------------
// Lists.
// ---------------------------------------------------------------------------

/// The address of element `idx` of a list of eight-byte elements: `((base + 11) & -8) + idx * 8`.
pub open spec fn wide_address(base: u32, idx: u32, range: TokenRange) -> Seq<TaggedOpView> {
    seq![
        let_get(base, IrType::I32, range),
        sop(SimpleOp::ConstI32(11), range),
        sop(SimpleOp::Add(IrType::I32), range),
        sop(SimpleOp::ConstI32(ALIGN_MASK), range),
        sop(SimpleOp::BitAnd(IrType::I32), range),
        let_get(idx, IrType::I32, range),
        sop(SimpleOp::ConstI32(8), range),
        sop(SimpleOp::Mul(IrType::I32), range),
        sop(SimpleOp::Add(IrType::I32), range),
    ]
}

fn emit_wide_address(base: u32, idx: u32, range: TokenRange, out: &mut Vec<TaggedOp>)
    ensures
        ops_view(final(out)@) == ops_view(old(out)@) + wide_address(base, idx, range),
{
    emit_get(out, base, IrType::I32, range);
    emit_simple(out, SimpleOp::ConstI32(11), range);
    emit_simple(out, SimpleOp::Add(IrType::I32), range);
    emit_simple(out, SimpleOp::ConstI32(ALIGN_MASK), range);
    emit_simple(out, SimpleOp::BitAnd(IrType::I32), range);
    emit_get(out, idx, IrType::I32, range);
    emit_simple(out, SimpleOp::ConstI32(8), range);
    emit_simple(out, SimpleOp::Mul(IrType::I32), range);
    emit_simple(out, SimpleOp::Add(IrType::I32), range);
    assert(ops_view(out@) =~= ops_view(old(out)@) + wide_address(base, idx, range));
}

/// The address of element `idx` of a list of four-byte pointers: `base + 4 + idx * 4`.
pub open spec fn narrow_address(base: u32, idx: u32, range: TokenRange) -> Seq<TaggedOpView> {
    seq![
        let_get(base, IrType::I32, range),
        sop(SimpleOp::ConstI32(4), range),
        sop(SimpleOp::Add(IrType::I32), range),
        let_get(idx, IrType::I32, range),
        sop(SimpleOp::ConstI32(4), range),
        sop(SimpleOp::Mul(IrType::I32), range),
        sop(SimpleOp::Add(IrType::I32), range),
    ]
}

fn emit_narrow_address(base: u32, idx: u32, range: TokenRange, out: &mut Vec<TaggedOp>)
    ensures
        ops_view(final(out)@) == ops_view(old(out)@) + narrow_address(base, idx, range),
{
    emit_get(out, base, IrType::I32, range);
    emit_simple(out, SimpleOp::ConstI32(4), range);
    emit_simple(out, SimpleOp::Add(IrType::I32), range);
    emit_get(out, idx, IrType::I32, range);
    emit_simple(out, SimpleOp::ConstI32(4), range);
    emit_simple(out, SimpleOp::Mul(IrType::I32), range);
    emit_simple(out, SimpleOp::Add(IrType::I32), range);
    assert(ops_view(out@) =~= ops_view(old(out)@) + narrow_address(base, idx, range));
}

/// The receiver and the index in two fresh slots, then an address and a load.
pub open spec fn indexed<L: SubLowering>(
    low: L,
    index: Node,
    wide: bool,
    load: SimpleOp,
    ty: IrType,
    range: TokenRange,
    scope: Scope<'_>,
    at: SlotsView,
) -> Result<FragmentView, ErrorView> {
    let base = at.lets;
    let idx = slot_at(at.lets, 1);
    match int_top(low.lowered(index, scope, at.after(2)), range) {
        Err(e) => Err(e),
        Ok(f) => Ok(
            FragmentView {
                ops: ((seq![let_set(base, IrType::I32, range)] + f.ops).push(
                    let_set(idx, IrType::I32, range),
                ) + if wide {
                    wide_address(base, idx, range)
                } else {
                    narrow_address(base, idx, range)
                }).push(sop(load, range)),
                ty: Some(ty),
                slots: f.slots,
            },
        ),
    }
}

fn emit_indexed<L: SubLowering>(
    index: &Node,
    wide: bool,
    load: SimpleOp,
    ty: IrType,
    range: TokenRange,
    scope: &Scope<'_>,
    at: &Slots,
    low: &L,
) -> (r: Result<Fragment, LoweringError>)
    ensures
        outcome(r) == indexed(*low, *index, wide, load, ty, range, *scope, at@),
{
    let base_i: u32 = at.lets;
    let idx_i: u32 = slot(at.lets, 1);
    let f = match lower_int(low, index, range, scope, &at.reserve(2)) {
        Err(e) => {
            return Err(e);
        },
        Ok(f) => f,
    };
    let mut out: Vec<TaggedOp> = Vec::new();
    emit_set(&mut out, base_i, IrType::I32, range);
    assert(ops_view(out@) =~= seq![let_set(base_i, IrType::I32, range)]);
    let slots: Slots = f.slots;
    emit_all(&mut out, f.ops);
    emit_set(&mut out, idx_i, IrType::I32, range);
    if wide {
        emit_wide_address(base_i, idx_i, range, &mut out);
    } else {
        emit_narrow_address(base_i, idx_i, range, &mut out);
    }
    emit_simple(&mut out, load, range);
    Ok(Fragment { ops: out, ty: Some(ty), slots })
}

/// Indexing of an integer or float list: the element is loaded from its
/// eight-byte slot.
pub open spec fn list_index<L: SubLowering>(
    low: L,
    index: Node,
    recv_ty: IrType,
    range: TokenRange,
    scope: Scope<'_>,
    at: SlotsView,
) -> Result<FragmentView, ErrorView> {
    if recv_ty == IrType::ListFloat {
        indexed(
            low,
            index,
            true,
            SimpleOp::LoadF64AtAbsolute { offset: 0 },
            IrType::F64,
            range,
            scope,
            at,
        )
    } else {
        indexed(
            low,
            index,
            true,
            SimpleOp::LoadI64AtAbsolute { offset: 0 },
            IrType::I64,
            range,
            scope,
            at,
        )
    }
}

/// Lowers the index of an integer or float list.
pub fn lower_list_index_typed<L: SubLowering>(
    index_node: &Node,
    recv_ty: IrType,
    range: TokenRange,
    scope: &Scope<'_>,
    at: &Slots,
    low: &L,
) -> (r: Result<Fragment, LoweringError>)
    ensures
        outcome(r) == list_index(*low, *index_node, recv_ty, range, *scope, at@),
{
    match recv_ty {
        IrType::ListFloat => emit_indexed(
            index_node,
            true,
            SimpleOp::LoadF64AtAbsolute { offset: 0 },
            IrType::F64,
            range,
            scope,
            at,
            low,
        ),
        _ => emit_indexed(
            index_node,
            true,
            SimpleOp::LoadI64AtAbsolute { offset: 0 },
            IrType::I64,
            range,
            scope,
            at,
            low,
        ),
    }
}

/// Lowers the index of an integer list.
pub fn lower_list_int_index<L: SubLowering>(
    index_node: &Node,
    range: TokenRange,
    scope: &Scope<'_>,
    at: &Slots,
    low: &L,
) -> (r: Result<Fragment, LoweringError>)
    ensures
        outcome(r) == list_index(*low, *index_node, IrType::ListInt, range, *scope, at@),
{
    lower_list_index_typed(index_node, IrType::ListInt, range, scope, at, low)
}

/// Indexing of a string list: the pointer slot is the string handle.
pub open spec fn list_string_index<L: SubLowering>(
    low: L,
    index: Node,
    range: TokenRange,
    scope: Scope<'_>,
    at: SlotsView,
) -> Result<FragmentView, ErrorView> {
    indexed(
        low,
        index,
        false,
        SimpleOp::LoadI32AtAbsolute { offset: 0 },
        IrType::String,
        range,
        scope,
        at,
    )
}

/// Lowers the index of a string list.
pub fn lower_list_string_index<L: SubLowering>(
    index_node: &Node,
    range: TokenRange,
    scope: &Scope<'_>,
    at: &Slots,
    low: &L,
) -> (r: Result<Fragment, LoweringError>)
    ensures
        outcome(r) == list_string_index(*low, *index_node, range, *scope, at@),
{
    emit_indexed(
        index_node,
        false,
        SimpleOp::LoadI32AtAbsolute { offset: 0 },
        IrType::String,
        range,
        scope,
        at,
        low,
    )
}

// ---------------------------------------------------------------------------
// Dictionaries.
// ---------------------------------------------------------------------------
//
// A dictionary record is a header `[count: u32][pad: u32][hash: u64]`, then
// `count` entries `[key offset: u32][key length: u32][value: i64]`, then the
// key bytes; key offsets count from the start of the record. The probe scans
// the entries, compares the lengths and then the bytes, and traps on a miss.

/// Key length and entry count into slots; index, hit flag and result cleared.
pub open spec fn probe_setup(
    dict: u32,
    key: u32,
    klen: u32,
    n: u32,
    i: u32,
    found: u32,
    result: u32,
    range: TokenRange,
) -> Seq<TaggedOpView> {
    seq![
        let_get(key, IrType::I32, range),
        sop(SimpleOp::LoadI32AtAbsolute { offset: 0 }, range),
        let_set(klen, IrType::I32, range),
        let_get(dict, IrType::I32, range),
        sop(SimpleOp::LoadI32AtAbsolute { offset: 0 }, range),
        let_set(n, IrType::I32, range),
        sop(SimpleOp::ConstI32(0), range),
        let_set(i, IrType::I32, range),
        sop(SimpleOp::ConstI32(0), range),
        let_set(found, IrType::I32, range),
        sop(SimpleOp::ConstI64(0), range),
        let_set(result, IrType::I64, range),
    ]
}

fn emit_probe_setup(
    dict: u32,
    key: u32,
    klen: u32,
    n: u32,
    i: u32,
    found: u32,
    result: u32,
    range: TokenRange,
    out: &mut Vec<TaggedOp>,
)
    ensures
        ops_view(final(out)@) == ops_view(old(out)@) + probe_setup(
            dict,
            key,
            klen,
            n,
            i,
            found,
            result,
            range,
        ),
{
    emit_get(out, key, IrType::I32, range);
    emit_simple(out, SimpleOp::LoadI32AtAbsolute { offset: 0 }, range);
    emit_set(out, klen, IrType::I32, range);
    emit_get(out, dict, IrType::I32, range);
    emit_simple(out, SimpleOp::LoadI32AtAbsolute { offset: 0 }, range);
    emit_set(out, n, IrType::I32, range);
    emit_simple(out, SimpleOp::ConstI32(0), range);
    emit_set(out, i, IrType::I32, range);
    emit_simple(out, SimpleOp::ConstI32(0), range);
    emit_set(out, found, IrType::I32, range);
    emit_simple(out, SimpleOp::ConstI64(0), range);
    emit_set(out, result, IrType::I64, range);
    assert(ops_view(out@) =~= ops_view(old(out)@) + probe_setup(dict, key, klen, n, i, found, result, range));
}

/// One step of the byte comparison; `mismatch` tells whether the bytes differ.
pub open spec fn compare_bytes(
    key: u32,
    klen: u32,
    entry_key: u32,
    j: u32,
    mismatch: u32,
    range: TokenRange,
) -> Seq<TaggedOpView> {
    seq![
        let_get(j, IrType::I32, range),
        let_get(klen, IrType::I32, range),
        sop(SimpleOp::Ge(IrType::I32), range),
        sop(SimpleOp::BrIf { label_depth: 1 }, range),
        let_get(key, IrType::I32, range),
        sop(SimpleOp::ConstI32(4), range),
        sop(SimpleOp::Add(IrType::I32), range),
        let_get(j, IrType::I32, range),
        sop(SimpleOp::Add(IrType::I32), range),
        sop(SimpleOp::LoadI8UAtAbsolute { offset: 0 }, range),
        let_get(entry_key, IrType::I32, range),
        let_get(j, IrType::I32, range),
        sop(SimpleOp::Add(IrType::I32), range),
        sop(SimpleOp::LoadI8UAtAbsolute { offset: 0 }, range),
        sop(SimpleOp::Ne(IrType::I32), range),
        let_set(mismatch, IrType::I32, range),
        let_get(mismatch, IrType::I32, range),
        sop(SimpleOp::ConstI32(0), range),
        sop(SimpleOp::Ne(IrType::I32), range),
        sop(SimpleOp::BrIf { label_depth: 1 }, range),
        let_get(j, IrType::I32, range),
        sop(SimpleOp::ConstI32(1), range),
        sop(SimpleOp::Add(IrType::I32), range),
        let_set(j, IrType::I32, range),
        sop(SimpleOp::Br { label_depth: 0 }, range),
    ]
}

fn emit_compare_bytes(
    key: u32,
    klen: u32,
    entry_key: u32,
    j: u32,
    mismatch: u32,
    range: TokenRange,
    out: &mut Vec<TaggedOp>,
)
    ensures
        ops_view(final(out)@) == ops_view(old(out)@) + compare_bytes(
            key,
            klen,
            entry_key,
            j,
            mismatch,
            range,
        ),
{
    emit_get(out, j, IrType::I32, range);
    emit_get(out, klen, IrType::I32, range);
    emit_simple(out, SimpleOp::Ge(IrType::I32), range);
    emit_simple(out, SimpleOp::BrIf { label_depth: 1 }, range);
    emit_get(out, key, IrType::I32, range);
    emit_simple(out, SimpleOp::ConstI32(4), range);
    emit_simple(out, SimpleOp::Add(IrType::I32), range);
    emit_get(out, j, IrType::I32, range);
    emit_simple(out, SimpleOp::Add(IrType::I32), range);
    emit_simple(out, SimpleOp::LoadI8UAtAbsolute { offset: 0 }, range);
    emit_get(out, entry_key, IrType::I32, range);
    emit_get(out, j, IrType::I32, range);
    emit_simple(out, SimpleOp::Add(IrType::I32), range);
    emit_simple(out, SimpleOp::LoadI8UAtAbsolute { offset: 0 }, range);
    emit_simple(out, SimpleOp::Ne(IrType::I32), range);
    emit_set(out, mismatch, IrType::I32, range);
    emit_get(out, mismatch, IrType::I32, range);
    emit_simple(out, SimpleOp::ConstI32(0), range);
    emit_simple(out, SimpleOp::Ne(IrType::I32), range);
    emit_simple(out, SimpleOp::BrIf { label_depth: 1 }, range);
    emit_get(out, j, IrType::I32, range);
    emit_simple(out, SimpleOp::ConstI32(1), range);
    emit_simple(out, SimpleOp::Add(IrType::I32), range);
    emit_set(out, j, IrType::I32, range);
    emit_simple(out, SimpleOp::Br { label_depth: 0 }, range);
    assert(ops_view(out@) =~= ops_view(old(out)@) + compare_bytes(key, klen, entry_key, j, mismatch, range));
}

/// Leave on a hit or behind the last entry; then the entry address and key length.
pub open spec fn scan_head(
    dict: u32,
    n: u32,
    i: u32,
    found: u32,
    entry_len: u32,
    entry: u32,
    range: TokenRange,
) -> Seq<TaggedOpView> {
    seq![
        let_get(found, IrType::I32, range),
        sop(SimpleOp::ConstI32(0), range),
        sop(SimpleOp::Ne(IrType::I32), range),
        sop(SimpleOp::BrIf { label_depth: 1 }, range),
        let_get(i, IrType::I32, range),
        let_get(n, IrType::I32, range),
        sop(SimpleOp::Ge(IrType::I32), range),
        sop(SimpleOp::BrIf { label_depth: 1 }, range),
        let_get(dict, IrType::I32, range),
        sop(SimpleOp::ConstI32(16), range),
        sop(SimpleOp::Add(IrType::I32), range),
        let_get(i, IrType::I32, range),
        sop(SimpleOp::ConstI32(16), range),
        sop(SimpleOp::Mul(IrType::I32), range),
        sop(SimpleOp::Add(IrType::I32), range),
        let_set(entry, IrType::I32, range),
        let_get(entry, IrType::I32, range),
        sop(SimpleOp::LoadI32AtAbsolute { offset: 4 }, range),
        let_set(entry_len, IrType::I32, range),
    ]
}

fn emit_scan_head(
    dict: u32,
    n: u32,
    i: u32,
    found: u32,
    entry_len: u32,
    entry: u32,
    range: TokenRange,
    out: &mut Vec<TaggedOp>,
)
    ensures
        ops_view(final(out)@) == ops_view(old(out)@) + scan_head(
            dict,
            n,
            i,
            found,
            entry_len,
            entry,
            range,
        ),
{
    emit_get(out, found, IrType::I32, range);
    emit_simple(out, SimpleOp::ConstI32(0), range);
    emit_simple(out, SimpleOp::Ne(IrType::I32), range);
    emit_simple(out, SimpleOp::BrIf { label_depth: 1 }, range);
    emit_get(out, i, IrType::I32, range);
    emit_get(out, n, IrType::I32, range);
    emit_simple(out, SimpleOp::Ge(IrType::I32), range);
    emit_simple(out, SimpleOp::BrIf { label_depth: 1 }, range);
    emit_get(out, dict, IrType::I32, range);
    emit_simple(out, SimpleOp::ConstI32(16), range);
    emit_simple(out, SimpleOp::Add(IrType::I32), range);
    emit_get(out, i, IrType::I32, range);
    emit_simple(out, SimpleOp::ConstI32(16), range);
    emit_simple(out, SimpleOp::Mul(IrType::I32), range);
    emit_simple(out, SimpleOp::Add(IrType::I32), range);
    emit_set(out, entry, IrType::I32, range);
    emit_get(out, entry, IrType::I32, range);
    emit_simple(out, SimpleOp::LoadI32AtAbsolute { offset: 4 }, range);
    emit_set(out, entry_len, IrType::I32, range);
    assert(ops_view(out@) =~= ops_view(old(out)@) + scan_head(dict, n, i, found, entry_len, entry, range));
}

/// Skip an entry of another key length; then the address of its key bytes.
pub open spec fn match_head(
    dict: u32,
    klen: u32,
    entry_len: u32,
    entry_key: u32,
    entry: u32,
    j: u32,
    mismatch: u32,
    range: TokenRange,
) -> Seq<TaggedOpView> {
    seq![
        let_get(entry_len, IrType::I32, range),
        let_get(klen, IrType::I32, range),
        sop(SimpleOp::Ne(IrType::I32), range),
        sop(SimpleOp::BrIf { label_depth: 0 }, range),
        let_get(dict, IrType::I32, range),
        let_get(entry, IrType::I32, range),
        sop(SimpleOp::LoadI32AtAbsolute { offset: 0 }, range),
        sop(SimpleOp::Add(IrType::I32), range),
        let_set(entry_key, IrType::I32, range),
        sop(SimpleOp::ConstI32(0), range),
        let_set(j, IrType::I32, range),
        sop(SimpleOp::ConstI32(0), range),
        let_set(mismatch, IrType::I32, range),
    ]
}

fn emit_match_head(
    dict: u32,
    klen: u32,
    entry_len: u32,
    entry_key: u32,
    entry: u32,
    j: u32,
    mismatch: u32,
    range: TokenRange,
    out: &mut Vec<TaggedOp>,
)
    ensures
        ops_view(final(out)@) == ops_view(old(out)@) + match_head(
            dict,
            klen,
            entry_len,
            entry_key,
            entry,
            j,
            mismatch,
            range,
        ),
{
    emit_get(out, entry_len, IrType::I32, range);
    emit_get(out, klen, IrType::I32, range);
    emit_simple(out, SimpleOp::Ne(IrType::I32), range);
    emit_simple(out, SimpleOp::BrIf { label_depth: 0 }, range);
    emit_get(out, dict, IrType::I32, range);
    emit_get(out, entry, IrType::I32, range);
    emit_simple(out, SimpleOp::LoadI32AtAbsolute { offset: 0 }, range);
    emit_simple(out, SimpleOp::Add(IrType::I32), range);
    emit_set(out, entry_key, IrType::I32, range);
    emit_simple(out, SimpleOp::ConstI32(0), range);
    emit_set(out, j, IrType::I32, range);
    emit_simple(out, SimpleOp::ConstI32(0), range);
    emit_set(out, mismatch, IrType::I32, range);
    assert(ops_view(out@) =~= ops_view(old(out)@) + match_head(dict, klen, entry_len, entry_key, entry, j, mismatch, range));
}

/// Skip an entry of other key bytes; else take its value and note the hit.
pub open spec fn match_tail(
    found: u32,
    entry: u32,
    mismatch: u32,
    result: u32,
    range: TokenRange,
) -> Seq<TaggedOpView> {
    seq![
        let_get(mismatch, IrType::I32, range),
        sop(SimpleOp::ConstI32(0), range),
        sop(SimpleOp::Ne(IrType::I32), range),
        sop(SimpleOp::BrIf { label_depth: 0 }, range),
        let_get(entry, IrType::I32, range),
        sop(SimpleOp::LoadI64AtAbsolute { offset: 8 }, range),
        let_set(result, IrType::I64, range),
        sop(SimpleOp::ConstI32(1), range),
        let_set(found, IrType::I32, range),
    ]
}

fn emit_match_tail(
    found: u32,
    entry: u32,
    mismatch: u32,
    result: u32,
    range: TokenRange,
    out: &mut Vec<TaggedOp>,
)
    ensures
        ops_view(final(out)@) == ops_view(old(out)@) + match_tail(
            found,
            entry,
            mismatch,
            result,
            range,
        ),
{
    emit_get(out, mismatch, IrType::I32, range);
    emit_simple(out, SimpleOp::ConstI32(0), range);
    emit_simple(out, SimpleOp::Ne(IrType::I32), range);
    emit_simple(out, SimpleOp::BrIf { label_depth: 0 }, range);
    emit_get(out, entry, IrType::I32, range);
    emit_simple(out, SimpleOp::LoadI64AtAbsolute { offset: 8 }, range);
    emit_set(out, result, IrType::I64, range);
    emit_simple(out, SimpleOp::ConstI32(1), range);
    emit_set(out, found, IrType::I32, range);
    assert(ops_view(out@) =~= ops_view(old(out)@) + match_tail(found, entry, mismatch, result, range));
}

/// Advance to the next entry.
pub open spec fn scan_tail(i: u32, range: TokenRange) -> Seq<TaggedOpView> {
    seq![
        let_get(i, IrType::I32, range),
        sop(SimpleOp::ConstI32(1), range),
        sop(SimpleOp::Add(IrType::I32), range),
        let_set(i, IrType::I32, range),
        sop(SimpleOp::Br { label_depth: 0 }, range),
    ]
}

fn emit_scan_tail(i: u32, range: TokenRange, out: &mut Vec<TaggedOp>)
    ensures
        ops_view(final(out)@) == ops_view(old(out)@) + scan_tail(i, range),
{
    emit_get(out, i, IrType::I32, range);
    emit_simple(out, SimpleOp::ConstI32(1), range);
    emit_simple(out, SimpleOp::Add(IrType::I32), range);
    emit_set(out, i, IrType::I32, range);
    emit_simple(out, SimpleOp::Br { label_depth: 0 }, range);
    assert(ops_view(out@) =~= ops_view(old(out)@) + scan_tail(i, range));
}

/// Skip on a hit, else trap.
pub open spec fn miss_trap(found: u32, range: TokenRange) -> Seq<TaggedOpView> {
    seq![
        let_get(found, IrType::I32, range),
        sop(SimpleOp::ConstI32(0), range),
        sop(SimpleOp::Ne(IrType::I32), range),
        sop(SimpleOp::BrIf { label_depth: 0 }, range),
        sop(SimpleOp::Trap { kind: TrapKind::IndexOutOfBounds }, range),
    ]
}

fn emit_miss_trap(found: u32, range: TokenRange, out: &mut Vec<TaggedOp>)
    ensures
        ops_view(final(out)@) == ops_view(old(out)@) + miss_trap(found, range),
{
    emit_get(out, found, IrType::I32, range);
    emit_simple(out, SimpleOp::ConstI32(0), range);
    emit_simple(out, SimpleOp::Ne(IrType::I32), range);
    emit_simple(out, SimpleOp::BrIf { label_depth: 0 }, range);
    emit_simple(out, SimpleOp::Trap { kind: TrapKind::IndexOutOfBounds }, range);
    assert(ops_view(out@) =~= ops_view(old(out)@) + miss_trap(found, range));
}

/// The probe of the dictionary in `dict` for the string in `key`, with ten
/// scratch slots from `base` on; the found value is left on the stack.
pub open spec fn probe(dict: u32, key: u32, base: u32, range: TokenRange) -> Seq<TaggedOpView> {
    let klen = base;
    let n = slot_at(base, 1);
    let i = slot_at(base, 2);
    let found = slot_at(base, 3);
    let entry_len = slot_at(base, 4);
    let entry_key = slot_at(base, 5);
    let entry = slot_at(base, 6);
    let j = slot_at(base, 7);
    let mismatch = slot_at(base, 8);
    let result = slot_at(base, 9);
    probe_setup(dict, key, klen, n, i, found, result, range).push(
        loop_op(
            scan_head(dict, n, i, found, entry_len, entry, range).push(
                block_op(
                    match_head(dict, klen, entry_len, entry_key, entry, j, mismatch, range).push(
                        loop_op(compare_bytes(key, klen, entry_key, j, mismatch, range), range),
                    ) + match_tail(found, entry, mismatch, result, range),
                    range,
                ),
            ) + scan_tail(i, range),
            range,
        ),
    ).push(block_op(miss_trap(found, range), range)).push(let_get(result, IrType::I64, range))
}

fn emit_probe(dict: u32, key: u32, base: u32, range: TokenRange, out: &mut Vec<TaggedOp>)
    ensures
        ops_view(final(out)@) == ops_view(old(out)@) + probe(dict, key, base, range),
{
    let klen: u32 = base;
    let n: u32 = slot(base, 1);
    let i: u32 = slot(base, 2);
    let found: u32 = slot(base, 3);
    let entry_len: u32 = slot(base, 4);
    let entry_key: u32 = slot(base, 5);
    let entry: u32 = slot(base, 6);
    let j: u32 = slot(base, 7);
    let mismatch: u32 = slot(base, 8);
    let result: u32 = slot(base, 9);

    let mut bytes: Vec<TaggedOp> = Vec::new();
    emit_compare_bytes(key, klen, entry_key, j, mismatch, range, &mut bytes);
    assert(ops_view(bytes@) =~= compare_bytes(key, klen, entry_key, j, mismatch, range));
    let mut matching: Vec<TaggedOp> = Vec::new();
    emit_match_head(dict, klen, entry_len, entry_key, entry, j, mismatch, range, &mut matching);
    assert(ops_view(matching@) =~= match_head(
        dict,
        klen,
        entry_len,
        entry_key,
        entry,
        j,
        mismatch,
        range,
    ));
    emit_loop(bytes, range, &mut matching);
    emit_match_tail(found, entry, mismatch, result, range, &mut matching);
    let mut scan: Vec<TaggedOp> = Vec::new();
    emit_scan_head(dict, n, i, found, entry_len, entry, range, &mut scan);
    assert(ops_view(scan@) =~= scan_head(dict, n, i, found, entry_len, entry, range));
    emit_block(matching, range, &mut scan);
    emit_scan_tail(i, range, &mut scan);
    let mut miss: Vec<TaggedOp> = Vec::new();
    emit_miss_trap(found, range, &mut miss);
    assert(ops_view(miss@) =~= miss_trap(found, range));

    emit_probe_setup(dict, key, klen, n, i, found, result, range, out);
    emit_loop(scan, range, out);
    emit_block(miss, range, out);
    emit_get(out, result, IrType::I64, range);
    assert(ops_view(out@) =~= ops_view(old(out)@) + probe(dict, key, base, range));
}

/// Indexing of a dictionary by a string key.
pub open spec fn dict_index<L: SubLowering>(
    low: L,
    index: Node,
    range: TokenRange,
    scope: Scope<'_>,
    at: SlotsView,
) -> Result<FragmentView, ErrorView> {
    let dict = at.lets;
    match low.lowered(index, scope, at.after(1)) {
        Err(e) => Err(e),
        Ok(f) => match f.ty {
            None => Err(
                ErrorView::UnsupportedExpr {
                    kind: "Variable(dict-index-key-empty-stack)"@,
                    range,
                },
            ),
            Some(ty) => if ty != IrType::String {
                Err(
                    ErrorView::UnsupportedExpr {
                        kind: "Variable(dict-index key must be String, got "@ + ty.tag() + ")"@,
                        range,
                    },
                )
            } else {
                let key = f.slots.lets;
                Ok(
                    FragmentView {
                        ops: (seq![let_set(dict, IrType::I32, range)] + f.ops).push(
                            let_set(key, IrType::I32, range),
                        ) + probe(dict, key, slot_at(key, 1), range),
                        ty: Some(IrType::I64),
                        slots: f.slots.after(1).after(10),
                    },
                )
            },
        },
    }
}

/// Lowers the index of a dictionary by a string key.
pub fn lower_dict_string_index<L: SubLowering>(
    index_node: &Node,
    range: TokenRange,
    scope: &Scope<'_>,
    at: &Slots,
    low: &L,
) -> (r: Result<Fragment, LoweringError>)
    ensures
        outcome(r) == dict_index(*low, *index_node, range, *scope, at@),
{
    let dict: u32 = at.lets;
    let f = match low.lower_node(index_node, scope, &at.reserve(1)) {
        Err(e) => {
            return Err(e);
        },
        Ok(f) => f,
    };
    let ty = match f.ty {
        None => {
            return Err(unsupported("Variable(dict-index-key-empty-stack)", range));
        },
        Some(t) => t,
    };
    if ty != IrType::String {
        return Err(
            LoweringError::UnsupportedExpr {
                kind: join3("Variable(dict-index key must be String, got ", ty.name(), ")"),
                range,
            },
        );
    }
    let Fragment { ops, slots, .. } = f;
    let key: u32 = slots.lets;
    let mut out: Vec<TaggedOp> = Vec::new();
    emit_set(&mut out, dict, IrType::I32, range);
    assert(ops_view(out@) =~= seq![let_set(dict, IrType::I32, range)]);
    emit_all(&mut out, ops);
    emit_set(&mut out, key, IrType::I32, range);
    emit_probe(dict, key, slot(key, 1), range, &mut out);
    Ok(Fragment { ops: out, ty: Some(IrType::I64), slots: slots.reserve(1).reserve(10) })
}

} // verus!

//! What the constants of lowered code refer to: every constant string is
//! interned under its number, and every host call names an import.

use vstd::prelude::*;

use crate::ast::{Node, TokenRange};
use crate::error::ErrorView;
use crate::fragment::{FragmentView, LeafLowering, PoolSlots, Scope, SlotsView, SubLowering};
use crate::ir::{sop, IrType, OpView, SimpleOp, TaggedOpView};
use crate::native_import::{law_intern_import_stable, EntryView};
use crate::range_loop::{block_op, exit_guard, loop_op, step_and_loop};
use crate::stdlib::{law_intern_stable, law_interned_texts_are_distinct};
use crate::types::TypeRepr;

verus! {

/// What was interned stays, under its number.
pub open spec fn interns(a: SlotsView, b: SlotsView) -> bool {
    &&& a.strings.is_prefix_of(b.strings)
    &&& a.imports.is_prefix_of(b.imports)
}

/// The state keeps what it has interned and its closures; it may have interned
/// more, and numbered more closures. It holds no string twice if it did not
/// before, and its closures are known if they were before.
#[verifier::opaque]
pub open spec fn grows(a: SlotsView, b: SlotsView) -> bool {
    &&& interns(a, b)
    &&& a.closures.is_prefix_of(b.closures)
    &&& a.strings.no_duplicates() ==> b.strings.no_duplicates()
    &&& closures_known(a) ==> closures_known(b)
}

/// The tables are small enough for 32-bit numbers.
pub open spec fn countable(at: SlotsView) -> bool {
    at.strings.len() <= 0x1_0000_0000 && at.imports.len() <= 0x1_0000_0000
}

/// What an instruction refers to, at any depth, is interned.
pub open spec fn op_known(op: TaggedOpView, at: SlotsView) -> bool
    decreases op, 0nat,
{
    match op.op {
        OpView::ConstString { idx, value } => countable(at) ==> idx < at.strings.len()
            && at.strings[idx as int] == value,
        OpView::CallNative { import_idx, .. } => countable(at) ==> import_idx < at.imports.len(),
        OpView::Block { body, .. } => known(body, at),
        OpView::Loop { body, .. } => known(body, at),
        OpView::If { then_body, else_body, .. } => known(then_body, at) && known(else_body, at),
        _ => true,
    }
}

/// What the instructions refer to is interned.
pub open spec fn known(ops: Seq<TaggedOpView>, at: SlotsView) -> bool
    decreases ops, 1nat,
{
    forall|i: int| 0 <= i < ops.len() ==> op_known(#[trigger] ops[i], at)
}

/// What the closures refer to is interned.
pub open spec fn closures_known(at: SlotsView) -> bool {
    forall|i: int|
        0 <= i < at.closures.len() && (#[trigger] at.closures[i]) is Some ==> known(
            at.closures[i]->0.body,
            at,
        )
}

/// The fragment refers to what its state has interned, and its state keeps what
/// the one before it had.
pub open spec fn well_kept(at: SlotsView, f: FragmentView) -> bool {
    grows(at, f.slots) && known(f.ops, f.slots)
}

/// The outcome is an error or a well-kept fragment.
pub open spec fn kept(at: SlotsView, r: Result<FragmentView, ErrorView>) -> bool {
    r matches Ok(f) ==> well_kept(at, f)
}

/// The outcome is an error, nothing, or a well-kept fragment.
pub open spec fn kept_maybe(at: SlotsView, r: Result<Option<FragmentView>, ErrorView>) -> bool {
    r matches Ok(Some(f)) ==> well_kept(at, f)
}

/// Every lowering of a contained expression or closure is well kept.
pub open spec fn keeping<L: SubLowering>(low: L) -> bool {
    &&& forall|node: Node, scope: Scope<'_>, at: SlotsView|
        kept(at, #[trigger] low.lowered(node, scope, at))
    &&& forall|
        node: Node,
        param_tys: Seq<IrType>,
        ret_ty: IrType,
        scope: Scope<'_>,
        at: SlotsView,
    |
        kept(at, #[trigger] low.closure_lowered(node, param_tys, ret_ty, scope, at))
    &&& forall|
        name: Seq<char>,
        body: Node,
        param_tys: Seq<IrType>,
        ret_ty: IrType,
        expected: Option<TypeRepr>,
        scope: Scope<'_>,
        at: SlotsView,
    |
        kept(at, #[trigger] low.unary_lowered(name, body, param_tys, ret_ty, expected, scope, at))
}

// ---------------------------------------------------------------------------
// Growth.
// ---------------------------------------------------------------------------

/// A state keeps what it has.
pub broadcast proof fn lemma_grows_same(a: SlotsView)
    ensures
        #[trigger] grows(a, a),
{
    reveal(grows);
}

/// Growth composes.
pub broadcast proof fn lemma_grows_further(a: SlotsView, b: SlotsView, c: SlotsView)
    requires
        #[trigger] grows(a, b),
        #[trigger] grows(b, c),
    ensures
        grows(a, c),
{
    reveal(grows);
    assert forall|i: int| 0 <= i < a.strings.len() implies a.strings[i] == c.strings[i] by {
        assert(a.strings[i] == b.strings.take(a.strings.len() as int)[i]);
        assert(b.strings[i] == c.strings.take(b.strings.len() as int)[i]);
    }
    assert(a.strings =~= c.strings.take(a.strings.len() as int));
    assert forall|i: int| 0 <= i < a.imports.len() implies a.imports[i] == c.imports[i] by {
        assert(a.imports[i] == b.imports.take(a.imports.len() as int)[i]);
        assert(b.imports[i] == c.imports.take(b.imports.len() as int)[i]);
    }
    assert(a.imports =~= c.imports.take(a.imports.len() as int));
    assert forall|i: int| 0 <= i < a.closures.len() implies a.closures[i] == c.closures[i] by {
        assert(a.closures[i] == b.closures.take(a.closures.len() as int)[i]);
        assert(b.closures[i] == c.closures.take(b.closures.len() as int)[i]);
    }
    assert(a.closures =~= c.closures.take(a.closures.len() as int));
}

/// With the same closures, a state that has interned more keeps them known.
proof fn lemma_grows_interning(a: SlotsView, b: SlotsView)
    requires
        interns(a, b),
        a.closures == b.closures,
        a.strings.no_duplicates() ==> b.strings.no_duplicates(),
    ensures
        grows(a, b),
{
    reveal(grows);
    assert(a.closures.is_prefix_of(b.closures));
    if closures_known(a) {
        assert forall|i: int|
            0 <= i < b.closures.len() && (#[trigger] b.closures[i]) is Some implies known(
            b.closures[i]->0.body,
            b,
        ) by {
            assert(a.closures[i] is Some);
            lemma_known_interns(a.closures[i]->0.body, a, b);
        }
    }
}

/// Reserving let slots interns nothing.
pub broadcast proof fn lemma_grows_after(a: SlotsView, k: int)
    ensures
        grows(a, #[trigger] a.after(k)),
{
    lemma_grows_interning(a, a.after(k));
}

/// Reserving a record slot interns nothing.
pub broadcast proof fn lemma_grows_after_record(a: SlotsView)
    ensures
        grows(a, #[trigger] a.after_record()),
{
    lemma_grows_interning(a, a.after_record());
}

/// Numbering a constant record interns nothing.
pub broadcast proof fn lemma_grows_with_pool(a: SlotsView, pool: PoolSlots)
    ensures
        grows(a, #[trigger] a.with_pool(pool)),
{
    lemma_grows_interning(a, a.with_pool(pool));
}

/// Interning a string keeps the others, and finds the string.
pub broadcast proof fn lemma_grows_after_string(a: SlotsView, text: Seq<char>)
    ensures
        grows(a, #[trigger] a.after_string(text)),
        countable(a.after_string(text)) ==> a.string_number(text) < a.after_string(
            text,
        ).strings.len() && a.after_string(text).strings[a.string_number(text) as int] == text,
{
    law_intern_stable(a.strings, text);
    if a.strings.no_duplicates() {
        law_interned_texts_are_distinct(a.strings, text);
    }
    lemma_grows_interning(a, a.after_string(text));
}

/// Taking a closure number keeps the closures.
pub broadcast proof fn lemma_grows_after_reserved(a: SlotsView)
    ensures
        grows(a, #[trigger] a.after_reserved()),
{
    reveal(grows);
    let b = a.after_reserved();
    assert(a.closures =~= b.closures.take(a.closures.len() as int));
    if closures_known(a) {
        assert forall|i: int|
            0 <= i < b.closures.len() && (#[trigger] b.closures[i]) is Some implies known(
            b.closures[i]->0.body,
            b,
        ) by {
            assert(a.closures[i] is Some);
            lemma_known_interns(a.closures[i]->0.body, a, b);
        }
    }
}

/// Interning an import keeps the others, and finds the import.
pub broadcast proof fn lemma_grows_after_import(a: SlotsView, name: Seq<char>, entry: EntryView)
    ensures
        grows(a, #[trigger] a.after_import(name, entry)),
        countable(a.after_import(name, entry)) ==> a.import_number(name, entry) < a.after_import(
            name,
            entry,
        ).imports.len(),
{
    law_intern_import_stable(a.imports, name, entry);
    lemma_grows_interning(a, a.after_import(name, entry));
}

// ---------------------------------------------------------------------------
// Streams.
// ---------------------------------------------------------------------------

proof fn lemma_op_known_interns(op: TaggedOpView, a: SlotsView, b: SlotsView)
    requires
        op_known(op, a),
        interns(a, b),
    ensures
        op_known(op, b),
    decreases op, 0nat,
{
    match op.op {
        OpView::ConstString { idx, value } => {
            if countable(b) {
                assert(b.strings.subrange(0, a.strings.len() as int)[idx as int]
                    == b.strings[idx as int]);
            }
        },
        OpView::Block { body, .. } => {
            lemma_known_interns(body, a, b);
        },
        OpView::Loop { body, .. } => {
            lemma_known_interns(body, a, b);
        },
        OpView::If { then_body, else_body, .. } => {
            lemma_known_interns(then_body, a, b);
            lemma_known_interns(else_body, a, b);
        },
        _ => {},
    }
}

/// What is known stays known where more is interned.
pub proof fn lemma_known_interns(ops: Seq<TaggedOpView>, a: SlotsView, b: SlotsView)
    requires
        known(ops, a),
        interns(a, b),
    ensures
        known(ops, b),
    decreases ops, 1nat,
{
    assert forall|i: int| 0 <= i < ops.len() implies op_known(#[trigger] ops[i], b) by {
        lemma_op_known_interns(ops[i], a, b);
    }
}

/// What is known stays known.
pub broadcast proof fn lemma_known_grows(ops: Seq<TaggedOpView>, a: SlotsView, b: SlotsView)
    requires
        #[trigger] known(ops, a),
        #[trigger] grows(a, b),
    ensures
        known(ops, b),
{
    reveal(grows);
    lemma_known_interns(ops, a, b);
}

/// No instruction refers to nothing.
pub broadcast proof fn lemma_known_empty(at: SlotsView)
    ensures
        #[trigger] known(Seq::<TaggedOpView>::empty(), at),
{
}

/// The last instruction is known too.
pub broadcast proof fn lemma_known_push(a: Seq<TaggedOpView>, op: TaggedOpView, at: SlotsView)
    ensures
        #[trigger] known(a.push(op), at) == (known(a, at) && op_known(op, at)),
{
    if known(a.push(op), at) {
        assert forall|i: int| 0 <= i < a.len() implies op_known(#[trigger] a[i], at) by {
            assert(a.push(op)[i] == a[i]);
        }
        assert(a.push(op)[a.len() as int] == op);
    }
}

/// Both parts are known.
pub broadcast proof fn lemma_known_concat(
    a: Seq<TaggedOpView>,
    b: Seq<TaggedOpView>,
    at: SlotsView,
)
    ensures
        #[trigger] known(a + b, at) == (known(a, at) && known(b, at)),
{
    if known(a + b, at) {
        assert forall|i: int| 0 <= i < a.len() implies op_known(#[trigger] a[i], at) by {
            assert((a + b)[i] == a[i]);
        }
        assert forall|i: int| 0 <= i < b.len() implies op_known(#[trigger] b[i], at) by {
            assert((a + b)[a.len() + i] == b[i]);
        }
    }
}

/// An instruction without operands in the tables is known.
pub broadcast proof fn lemma_simple_known(op: SimpleOp, range: TokenRange, at: SlotsView)
    ensures
        #[trigger] op_known(sop(op, range), at),
{
}

/// A block refers to what its body refers to.
pub broadcast proof fn lemma_block_known(body: Seq<TaggedOpView>, range: TokenRange, at: SlotsView)
    ensures
        #[trigger] op_known(block_op(body, range), at) == known(body, at),
{
}

/// A loop refers to what its body refers to.
pub broadcast proof fn lemma_loop_known(body: Seq<TaggedOpView>, range: TokenRange, at: SlotsView)
    ensures
        #[trigger] op_known(loop_op(body, range), at) == known(body, at),
{
    let turn = TaggedOpView { op: OpView::Loop { result_ty: None, body }, range };
    let inner = seq![turn];
    assert(op_known(turn, at) == known(body, at));
    assert(inner[0] == turn);
    assert(known(inner, at) == op_known(turn, at));
    assert(loop_op(body, range).op == OpView::Block { result_ty: None, body: inner });
}

/// The guard and the end of an iteration refer to nothing.
pub broadcast proof fn lemma_guard_known(
    start: u32,
    end: u32,
    ty: IrType,
    depth: u32,
    range: TokenRange,
    at: SlotsView,
)
    ensures
        #[trigger] known(exit_guard(start, end, ty, depth, range), at),
{
}

/// The end of an iteration refers to nothing.
pub broadcast proof fn lemma_step_known(counter: u32, range: TokenRange, at: SlotsView)
    ensures
        #[trigger] known(step_and_loop(counter, range), at),
{
}

pub broadcast group group_known {
    lemma_grows_same,
    lemma_grows_further,
    lemma_grows_after,
    lemma_grows_after_record,
    lemma_grows_with_pool,
    lemma_grows_after_string,
    lemma_grows_after_import,
    lemma_grows_after_reserved,
    lemma_known_grows,
    lemma_known_empty,
    lemma_known_push,
    lemma_known_concat,
    lemma_simple_known,
    lemma_block_known,
    lemma_loop_known,
    lemma_guard_known,
    lemma_step_known,
}

/// The lowering of leaf expressions is well kept.
pub proof fn law_leaf_lowering_keeps()
    ensures
        keeping(LeafLowering),
{
    broadcast use group_known;

    assert forall|node: Node, scope: Scope<'_>, at: SlotsView| kept(
        at,
        #[trigger] LeafLowering.lowered(node, scope, at),
    ) by {
    }
}

/// Among strings interned once each, two constants of a module have the same
/// number exactly if they have the same text.
pub proof fn law_equal_strings_share_a_number(
    at: SlotsView,
    a: TaggedOpView,
    b: TaggedOpView,
)
    requires
        at.strings.no_duplicates(),
        countable(at),
        op_known(a, at),
        op_known(b, at),
        a.op is ConstString,
        b.op is ConstString,
    ensures
        a.op->ConstString_idx == b.op->ConstString_idx <==> a.op->ConstString_value
            == b.op->ConstString_value,
{
}

} // verus!

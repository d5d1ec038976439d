//! The operand stack: what instructions take from it and leave on it.

use vstd::prelude::*;

use crate::ast::Node;
use crate::error::ErrorView;
use crate::fragment::{leaf_lowered, FragmentView, LeafLowering, Scope, SlotsView, SubLowering};
use crate::ir::{IrType, OpView, SimpleOp, TaggedOpView};
use crate::types::TypeRepr;

verus! {

/// What a stream of instructions does to the operand stack.
pub ghost enum Tally {
    /// It takes values from a stack that holds at least `needs`, and leaves
    /// `change` more than there were.
    Through { needs: int, change: int },
    /// It takes values from a stack that holds at least `needs`, and ends in a
    /// jump or a trap.
    Gone { needs: int },
    /// It jumps out of what may be jumped out of, or holds a body that does not
    /// leave what it must.
    Bad,
}

/// The number of values that an instruction takes and leaves; jumps are not
/// covered.
pub open spec fn effect(op: SimpleOp) -> (int, int) {
    match op {
        SimpleOp::ConstI64(_) => (0, 1),
        SimpleOp::ConstI32(_) => (0, 1),
        SimpleOp::ConstF64(_) => (0, 1),
        SimpleOp::ConstBool(_) => (0, 1),
        SimpleOp::LetGet { .. } => (0, 1),
        SimpleOp::LetSet { .. } => (1, 0),
        SimpleOp::LocalGet(_) => (0, 1),
        SimpleOp::Add(_) => (2, 1),
        SimpleOp::Sub(_) => (2, 1),
        SimpleOp::Mul(_) => (2, 1),
        SimpleOp::BitAnd(_) => (2, 1),
        SimpleOp::Eq(_) => (2, 1),
        SimpleOp::Ne(_) => (2, 1),
        SimpleOp::Ge(_) => (2, 1),
        SimpleOp::Gt(_) => (2, 1),
        SimpleOp::ConvertI64ToF64 => (1, 1),
        SimpleOp::ReadStringLen => (1, 1),
        SimpleOp::AllocScratchDyn => (1, 1),
        SimpleOp::ListGetByIntIdx => (2, 1),
        SimpleOp::LoadField { .. } => (0, 1),
        SimpleOp::LoadFieldAtAbsolute { .. } => (1, 1),
        SimpleOp::LoadI32AtAbsolute { .. } => (1, 1),
        SimpleOp::LoadI64AtAbsolute { .. } => (1, 1),
        SimpleOp::LoadF64AtAbsolute { .. } => (1, 1),
        SimpleOp::LoadI8UAtAbsolute { .. } => (1, 1),
        SimpleOp::StoreI32AtAbsolute { .. } => (2, 0),
        SimpleOp::StoreI64AtAbsolute { .. } => (2, 0),
        SimpleOp::StoreF64AtAbsolute { .. } => (2, 0),
        SimpleOp::LoadStringPtr { .. } => (0, 1),
        SimpleOp::LoadListIntPtr { .. } => (0, 1),
        SimpleOp::LoadListFloatPtr { .. } => (0, 1),
        SimpleOp::LoadListBoolPtr { .. } => (0, 1),
        SimpleOp::LoadListStringPtr { .. } => (0, 1),
        SimpleOp::LoadListSchemaPtr { .. } => (0, 1),
        SimpleOp::LoadListListPtr { .. } => (0, 1),
        SimpleOp::LoadSchemaPtr { .. } => (0, 1),
        SimpleOp::StoreField { .. } => (1, 0),
        SimpleOp::StoreFieldAtRecord { .. } => (1, 0),
        SimpleOp::StoreFieldAtRecordAbsolute { .. } => (1, 0),
        SimpleOp::AllocRootRecord { .. } => (0, 0),
        SimpleOp::AllocSubRecord { .. } => (0, 0),
        SimpleOp::AllocScratchRecord { .. } => (0, 0),
        SimpleOp::PushRecordBase { .. } => (0, 1),
        SimpleOp::PushRecordBaseAbsolute { .. } => (0, 1),
        SimpleOp::EmitTailRecordFromAbsoluteAddr { .. } => (1, 1),
        SimpleOp::BuildVariantRecord { payload_ty, .. } => (if payload_ty is Some {
            1
        } else {
            0
        }, 1),
        SimpleOp::BuildVariantRecordScratch { payload_ty, .. } => (if payload_ty is Some {
            1
        } else {
            0
        }, 1),
        SimpleOp::BuildPointerList { len } => (len as int, 1),
        SimpleOp::Br { .. } => (0, 0),
        SimpleOp::BrIf { .. } => (1, 0),
        SimpleOp::Trap { .. } => (0, 0),
        SimpleOp::CheckCap { .. } => (0, 0),
        SimpleOp::Return => (0, 0),
    }
}

/// An instruction that takes and leaves values.
pub open spec fn passing(takes: int, leaves: int) -> Tally {
    Tally::Through { needs: takes, change: leaves - takes }
}

/// The larger of two numbers.
pub open spec fn larger(a: int, b: int) -> int {
    if a >= b {
        a
    } else {
        b
    }
}

/// One stream behind the other.
pub open spec fn joined(a: Tally, b: Tally) -> Tally {
    match (a, b) {
        (Tally::Bad, _) => Tally::Bad,
        (Tally::Gone { needs }, _) => Tally::Gone { needs },
        (_, Tally::Bad) => Tally::Bad,
        (Tally::Through { needs, change }, Tally::Gone { needs: more }) => Tally::Gone {
            needs: larger(needs, more - change),
        },
        (
            Tally::Through { needs, change },
            Tally::Through { needs: more, change: further },
        ) => Tally::Through { needs: larger(needs, more - change), change: change + further },
    }
}

/// The stream takes at most `takes` values and leaves `leaves` in their place,
/// unless it ends in a jump or a trap.
pub open spec fn settles(t: Tally, takes: int, leaves: int) -> bool {
    match t {
        Tally::Through { needs, change } => needs <= takes && change == leaves - takes,
        Tally::Gone { needs } => needs <= takes,
        Tally::Bad => false,
    }
}

/// The number of results of a block.
pub open spec fn results_of(ty: Option<IrType>) -> int {
    if ty is Some {
        1
    } else {
        0
    }
}

/// A body on a stack of its own.
pub open spec fn enclosed(body: Tally, results: int) -> Tally {
    if settles(body, 0, results) {
        passing(0, results)
    } else {
        Tally::Bad
    }
}

/// What one instruction does. The innermost `labels` enclosing blocks take no
/// value and may be jumped to.
pub open spec fn op_tally(op: TaggedOpView, labels: nat) -> Tally
    decreases op, 0nat,
{
    match op.op {
        OpView::Simple(s) => match s {
            SimpleOp::Br { label_depth } => if label_depth < labels {
                Tally::Gone { needs: 0 }
            } else {
                Tally::Bad
            },
            SimpleOp::BrIf { label_depth } => if label_depth < labels {
                passing(1, 0)
            } else {
                Tally::Bad
            },
            SimpleOp::Trap { .. } => Tally::Gone { needs: 0 },
            SimpleOp::Return => Tally::Gone { needs: 0 },
            _ => passing(effect(s).0, effect(s).1),
        },
        OpView::ConstString { .. } => passing(0, 1),
        OpView::ConstListInt { .. } => passing(0, 1),
        OpView::ConstListFloat { .. } => passing(0, 1),
        OpView::ConstListBool { .. } => passing(0, 1),
        OpView::ConstListString { .. } => passing(0, 1),
        OpView::ConstDict { .. } => passing(0, 1),
        OpView::Block { result_ty, body } => enclosed(
            tally(
                body,
                if result_ty is None {
                    labels + 1
                } else {
                    0
                },
            ),
            results_of(result_ty),
        ),
        OpView::Loop { result_ty, body } => enclosed(
            tally(body, labels + 1),
            results_of(result_ty),
        ),
        OpView::If { then_body, else_body, .. } => if settles(tally(then_body, 0), 0, 1)
            && settles(tally(else_body, 0), 0, 1) {
            passing(1, 1)
        } else {
            Tally::Bad
        },
        OpView::Call { arg_count, .. } => passing(arg_count as int, 1),
        OpView::CallClosure { param_tys, .. } => passing(param_tys.len() as int + 1, 1),
        OpView::CallNative { param_tys, .. } => passing(param_tys.len() as int, 1),
    }
}

/// What a stream of instructions does.
pub open spec fn tally(ops: Seq<TaggedOpView>, labels: nat) -> Tally
    decreases ops, 1nat,
{
    if ops.len() == 0 {
        passing(0, 0)
    } else {
        joined(tally(ops.drop_last(), labels), op_tally(ops.last(), labels))
    }
}

/// The fragment leaves the value that it states, and nothing else.
pub open spec fn neat(f: FragmentView) -> bool {
    forall|labels: nat| settles(#[trigger] tally(f.ops, labels), 0, results_of(f.ty))
}

/// The outcome is an error or a neat fragment.
pub open spec fn neat_outcome(r: Result<FragmentView, ErrorView>) -> bool {
    r matches Ok(f) ==> neat(f)
}

/// The outcome is an error or a neat fragment that leaves a value.
pub open spec fn neat_value(r: Result<FragmentView, ErrorView>) -> bool {
    r matches Ok(f) ==> f.ty is Some && neat(f)
}

/// The outcome is an error, or takes a value and leaves one in its place.
pub open spec fn neat_suffix(r: Result<FragmentView, ErrorView>) -> bool {
    r matches Ok(f) ==> f.ty is Some && neat_tail(f.ops)
}

/// The outcome is an error, nothing, or takes a value and leaves one in its
/// place.
pub open spec fn neat_maybe_suffix(r: Result<Option<FragmentView>, ErrorView>) -> bool {
    r matches Ok(Some(f)) ==> f.ty is Some && neat_tail(f.ops)
}

/// The outcome is an error, nothing, or a neat fragment.
pub open spec fn neat_maybe(r: Result<Option<FragmentView>, ErrorView>) -> bool {
    r matches Ok(Some(f)) ==> neat(f)
}

/// The instructions take a value and leave one in its place.
pub open spec fn neat_tail(ops: Seq<TaggedOpView>) -> bool {
    forall|labels: nat| settles(#[trigger] tally(ops, labels), 1, 1)
}

// ---------------------------------------------------------------------------
// Composition.
// ---------------------------------------------------------------------------

/// No instruction does nothing.
pub broadcast proof fn lemma_tally_empty(labels: nat)
    ensures
        #[trigger] tally(Seq::<TaggedOpView>::empty(), labels) == passing(0, 0),
{
}

/// The last instruction comes last.
pub broadcast proof fn lemma_tally_push(a: Seq<TaggedOpView>, op: TaggedOpView, labels: nat)
    ensures
        #[trigger] tally(a.push(op), labels) == joined(tally(a, labels), op_tally(op, labels)),
{
    assert(a.push(op).drop_last() =~= a);
}

proof fn lemma_joined_associates(a: Tally, b: Tally, c: Tally)
    ensures
        joined(joined(a, b), c) == joined(a, joined(b, c)),
{
}

/// Streams join.
pub broadcast proof fn lemma_tally_concat(
    a: Seq<TaggedOpView>,
    b: Seq<TaggedOpView>,
    labels: nat,
)
    ensures
        #[trigger] tally(a + b, labels) == joined(tally(a, labels), tally(b, labels)),
    decreases b.len(),
{
    lemma_tally_needs(a, labels);
    if b.len() == 0 {
        assert(a + b =~= a);
    } else {
        assert((a + b).drop_last() =~= a + b.drop_last());
        lemma_tally_concat(a, b.drop_last(), labels);
        assert((a + b).last() == b.last());
        lemma_joined_associates(
            tally(a, labels),
            tally(b.drop_last(), labels),
            op_tally(b.last(), labels),
        );
    }
}

/// A stream never needs less than nothing, nor leaves less than nothing.
pub proof fn lemma_tally_needs(a: Seq<TaggedOpView>, labels: nat)
    ensures
        match tally(a, labels) {
            Tally::Through { needs, change } => needs >= 0 && needs + change >= 0,
            Tally::Gone { needs } => needs >= 0,
            Tally::Bad => true,
        },
    decreases a.len(),
{
    if a.len() > 0 {
        lemma_tally_needs(a.drop_last(), labels);
        lemma_op_needs(a.last(), labels);
    }
}

proof fn lemma_op_needs(op: TaggedOpView, labels: nat)
    ensures
        match op_tally(op, labels) {
            Tally::Through { needs, change } => needs >= 0 && needs + change >= 0,
            Tally::Gone { needs } => needs >= 0,
            Tally::Bad => true,
        },
{
}

pub broadcast group group_tally {
    lemma_tally_empty,
    lemma_tally_push,
    lemma_tally_concat,
}

// ---------------------------------------------------------------------------
// Lowerings.
// ---------------------------------------------------------------------------

/// Every lowering of a contained expression or closure is neat, and a closure
/// leaves a value.
pub open spec fn neat_lowering<L: SubLowering>(low: L) -> bool {
    &&& forall|node: Node, scope: Scope<'_>, at: SlotsView|
        neat_outcome(#[trigger] low.lowered(node, scope, at))
    &&& forall|node: Node, param_tys: Seq<IrType>, ret_ty: IrType, scope: Scope<'_>, at: SlotsView|
        neat_value(#[trigger] low.closure_lowered(node, param_tys, ret_ty, scope, at))
    &&& forall|
        name: Seq<char>,
        body: Node,
        param_tys: Seq<IrType>,
        ret_ty: IrType,
        expected: Option<TypeRepr>,
        scope: Scope<'_>,
        at: SlotsView,
    |
        neat_value(
            #[trigger] low.unary_lowered(name, body, param_tys, ret_ty, expected, scope, at),
        )
}

/// The lowering of leaf expressions is neat.
pub proof fn law_leaf_lowering_is_neat()
    ensures
        neat_lowering(LeafLowering),
{
    broadcast use group_tally;

    assert forall|node: Node, scope: Scope<'_>, at: SlotsView| neat_outcome(
        #[trigger] LeafLowering.lowered(node, scope, at),
    ) by {
        match leaf_lowered(node, scope, at) {
            Ok(f) => {
                let op = f.ops[0];
                assert(f.ops =~= seq![op]);
                assert forall|labels: nat| settles(#[trigger] tally(f.ops, labels), 0, 1) by {
                    assert(op_tally(op, labels) == passing(0, 1));
                }
            },
            Err(_) => {},
        }
    }
}

} // verus!

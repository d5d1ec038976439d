//! What a match on a variant does from its value to its arm.

use vstd::prelude::*;

use crate::arms::{
    arm_decision, pattern_bindings, pattern_variant, scrutinee_type, variant_tags,
    StaticArmDecision,
};
use crate::ast::{Expr, Node, TokenRange, TypeNode};
use crate::error::ErrorView;
use crate::fragment::{let_set, FragmentView, Scope, SlotsView};
use crate::ir::{IrType, SimpleOp, TrapKind};
use crate::matching::{
    arm_branch, arms_from, closed_arms, covers_all, dispatch, runtime_match, with_arm, MatchState,
};
use crate::meaning::{lemma_run_concat, lemma_simple, reads, run, Flow, Machine};
use crate::meaning_match::law_tag_picks_the_arm;
use crate::meaning_records::lemma_one_more;
use crate::records::RecordLowering;
use crate::reference::Frame;
use crate::types::TypeRepr;

verus! {

/// The type of the value that is matched on.
pub open spec fn matched_type(frame: Frame<'_>, scrutinee: Node, scope: Scope<'_>) -> TypeRepr {
    let (_, ty) = scrutinee_type(scrutinee, frame.params@, scope)->0;
    ty
}

/// The pattern stands for variants of the tag.
pub open spec fn stands_for_tag(ty: TypeRepr, pattern: Expr, tag: u8) -> bool {
    pattern is Wildcard || (pattern_variant(&ty, pattern) matches Some(n) && n.tag == tag)
}

/// The arm is the first whose pattern stands for the tag.
pub open spec fn first_arm_of(
    ty: TypeRepr,
    arms: Seq<(Node, Node)>,
    tag: u8,
    k: int,
) -> bool {
    &&& 0 <= k < arms.len()
    &&& stands_for_tag(ty, *arms[k].0.expr, tag)
    &&& forall|j: int| 0 <= j < k ==> !stands_for_tag(ty, *(#[trigger] arms[j]).0.expr, tag)
}

/// The code of an arm: what its pattern binds, and its body. A wildcard binds nothing.
pub open spec fn arm_code<L: RecordLowering>(
    low: L,
    ty: TypeRepr,
    name: String,
    arm: (Node, Node),
    slot: u32,
    range: TokenRange,
    scope: Scope<'_>,
    at: SlotsView,
) -> Result<FragmentView, ErrorView> {
    let pattern = *arm.0.expr;
    if pattern is Wildcard {
        arm_branch(low, arm.1, range, name, slot, None, Seq::empty(), scope, at)
    } else {
        arm_branch(
            low,
            arm.1,
            range,
            name,
            slot,
            pattern_variant(&ty, pattern),
            pattern_bindings(pattern),
            scope,
            at,
        )
    }
}

/// Each arm is kept under the tag of its pattern, as far as the first wildcard.
proof fn lemma_arms_kept<L: RecordLowering>(
    low: L,
    ty: TypeRepr,
    name: String,
    arms: Seq<(Node, Node)>,
    slot: u32,
    range: TokenRange,
    scope: Scope<'_>,
    state: MatchState,
    from: int,
    k: int,
) -> (at: SlotsView)
    requires
        0 <= from <= arms.len(),
        state.arms.len() == from,
        arms_from(low, &ty, name, arms, slot, range, scope, state, from) is Ok,
        forall|j: int| from <= j < k ==> !((#[trigger] *arms[j].0.expr) is Wildcard),
    ensures
        ({
            let last = arms_from(low, &ty, name, arms, slot, range, scope, state, from)->Ok_0;
            &&& from <= last.arms.len()
            &&& forall|j: int| 0 <= j < from ==> #[trigger] last.arms[j] == state.arms[j]
            &&& from <= k < arms.len() ==> {
                &&& k < last.arms.len()
                &&& arm_code(low, ty, name, arms[k], slot, range, scope, at) matches Ok(f)
                    && last.arms[k].ops == f.ops
                &&& *arms[k].0.expr is Wildcard ==> last.arms[k].tag is None
                &&& !(*arms[k].0.expr is Wildcard) ==> (pattern_variant(
                    &ty,
                    *arms[k].0.expr,
                ) matches Some(n) && last.arms[k].tag == Some(n.tag))
            }
        }),
    decreases arms.len() - from,
{
    if from >= arms.len() {
        state.slots
    } else {
        let pattern = *arms[from].0.expr;
        let f = arm_code(low, ty, name, arms[from], slot, range, scope, state.slots)->Ok_0;
        if pattern is Wildcard {
            state.slots
        } else {
            let n = pattern_variant(&ty, pattern)->0;
            let next = with_arm(state, Some(n.tag), f, arms[from].0.range);
            let found = lemma_arms_kept(
                low,
                ty,
                name,
                arms,
                slot,
                range,
                scope,
                next,
                from + 1,
                k,
            );
            let last = arms_from(low, &ty, name, arms, slot, range, scope, state, from)->Ok_0;
            assert forall|j: int| 0 <= j < from implies #[trigger] last.arms[j]
                == state.arms[j] by {
                assert(last.arms[j] == next.arms[j]);
            }
            assert(last.arms[from] == next.arms[from]);
            if k == from {
                state.slots
            } else {
                found
            }
        }
    }
}

/// A match on a variant evaluates the value, keeps its address, and then does what the
/// first arm does whose pattern stands for the tag that the value bears.
pub proof fn law_match_runs_the_arm_of_the_variant<L: RecordLowering>(
    low: L,
    frame: Frame<'_>,
    scrutinee: Node,
    arms: Seq<(Node, Node)>,
    range: TokenRange,
    scope: Scope<'_>,
    at: SlotsView,
    tag: u8,
    k: int,
    s: Machine,
    u: Machine,
    rounds: nat,
) -> (own: SlotsView)
    requires
        runtime_match(low, frame, scrutinee, arms, range, scope, at) matches Some(Ok(_)),
        first_arm_of(matched_type(frame, scrutinee, scope), arms, tag, k),
        forall|seen: SlotsView|
            (#[trigger] low.lowered(scrutinee, scope, seen)) matches Ok(f) ==> run(
                f.ops,
                s,
                rounds,
            ) == Flow::Next(u),
        u.stack.len() > 0,
        reads(u.mem, u.operand(0), 1, tag as int),
    ensures
        ({
            let g = runtime_match(low, frame, scrutinee, arms, range, scope, at)->0->Ok_0;
            let (name, ty) = scrutinee_type(scrutinee, frame.params@, scope)->0;
            let w = u.popped(1).with_let(at.lets, u.operand(0));
            &&& arm_code(low, ty, name, arms[k], at.lets, range, scope, own) matches Ok(f)
            &&& run(f.ops, w, rounds) is Next || run(f.ops, w, rounds) is Trap ==> run(
                g.ops,
                s,
                rounds,
            ) == run(f.ops, w, rounds)
        }),
{
    let (name, ty) = scrutinee_type(scrutinee, frame.params@, scope)->0;
    let slot = at.lets;
    let start = MatchState {
        arms: Seq::empty(),
        covered: Seq::empty(),
        wildcard: false,
        slots: at.after(1),
    };
    let g = runtime_match(low, frame, scrutinee, arms, range, scope, at)->0->Ok_0;
    let state = arms_from(low, &ty, name, arms, slot, range, scope, start, 0)->Ok_0;
    let own = lemma_arms_kept(low, ty, name, arms, slot, range, scope, start, 0, k);
    let result_ty = state.arms[0].ty;
    let (closed, seen) = closed_arms(ty, state, range)->Ok_0;
    let value = low.lowered(scrutinee, scope, seen)->Ok_0;
    let branches = dispatch(closed, slot, result_ty, range);
    let set = let_set(slot, IrType::I32, scrutinee.range);
    let w = u.popped(1).with_let(slot, u.operand(0));
    assert(run(value.ops, s, rounds) == Flow::Next(u));
    lemma_one_more(
        value.ops,
        SimpleOp::LetSet { idx: slot, ty: IrType::I32 },
        scrutinee.range,
        s,
        u,
        w,
        rounds,
    );
    lemma_run_concat(value.ops.push(set), branches, 0, s, rounds);
    assert(g.ops == value.ops.push(set) + branches);
    assert(closed[k] == state.arms[k]);
    assert forall|j: int| 0 <= j < k implies (#[trigger] closed[j]).tag is Some && closed[j].tag
        != Some(tag) by {
        let other = lemma_arms_kept(low, ty, name, arms, slot, range, scope, start, 0, j);
        assert(!stands_for_tag(ty, *arms[j].0.expr, tag));
        assert(closed[j] == state.arms[j]);
    }
    let f = arm_code(low, ty, name, arms[k], slot, range, scope, own)->Ok_0;
    let end = run(f.ops, w, rounds);
    if end is Next || end is Trap {
        law_tag_picks_the_arm(closed, slot, result_ty, range, w, tag, k, end, rounds);
    }
    own
}

/// Arms that do not stand for the tag leave it uncovered.
proof fn lemma_tag_uncovered<L: RecordLowering>(
    low: L,
    ty: TypeRepr,
    name: String,
    arms: Seq<(Node, Node)>,
    slot: u32,
    range: TokenRange,
    scope: Scope<'_>,
    state: MatchState,
    from: int,
    tag: u8,
)
    requires
        0 <= from <= arms.len(),
        forall|j: int| 0 <= j < arms.len() ==> !stands_for_tag(
            ty,
            *(#[trigger] arms[j]).0.expr,
            tag,
        ),
        !state.wildcard,
        !state.covered.contains(tag),
        forall|j: int|
            0 <= j < state.arms.len() ==> (#[trigger] state.arms[j]).tag is Some
                && state.arms[j].tag != Some(tag),
        arms_from(low, &ty, name, arms, slot, range, scope, state, from) is Ok,
    ensures
        ({
            let last = arms_from(low, &ty, name, arms, slot, range, scope, state, from)->Ok_0;
            &&& !last.wildcard
            &&& !last.covered.contains(tag)
            &&& forall|j: int|
                0 <= j < last.arms.len() ==> (#[trigger] last.arms[j]).tag is Some
                    && last.arms[j].tag != Some(tag)
        }),
    decreases arms.len() - from,
{
    if from < arms.len() {
        let pattern = *arms[from].0.expr;
        assert(!stands_for_tag(ty, pattern, tag));
        let f = arm_code(low, ty, name, arms[from], slot, range, scope, state.slots)->Ok_0;
        let n = pattern_variant(&ty, pattern)->0;
        let next = with_arm(state, Some(n.tag), f, arms[from].0.range);
        assert(!next.covered.contains(tag)) by {
            if next.covered.contains(tag) {
                let k = choose|k: int| 0 <= k < next.covered.len() && next.covered[k] == tag;
                assert(state.covered[k] == tag);
            }
        }
        lemma_tag_uncovered(low, ty, name, arms, slot, range, scope, next, from + 1, tag);
    }
}

/// A match traps on a variant that none of its patterns stands for.
pub proof fn law_match_traps_on_an_unmatched_variant<L: RecordLowering>(
    low: L,
    frame: Frame<'_>,
    scrutinee: Node,
    arms: Seq<(Node, Node)>,
    range: TokenRange,
    scope: Scope<'_>,
    at: SlotsView,
    tag: u8,
    s: Machine,
    u: Machine,
    rounds: nat,
)
    requires
        runtime_match(low, frame, scrutinee, arms, range, scope, at) matches Some(Ok(_)),
        variant_tags(matched_type(frame, scrutinee, scope)) matches Some(tags) && tags.contains(
            tag,
        ),
        forall|j: int| 0 <= j < arms.len() ==> !stands_for_tag(
            matched_type(frame, scrutinee, scope),
            *(#[trigger] arms[j]).0.expr,
            tag,
        ),
        forall|seen: SlotsView|
            (#[trigger] low.lowered(scrutinee, scope, seen)) matches Ok(f) ==> run(
                f.ops,
                s,
                rounds,
            ) == Flow::Next(u),
        u.stack.len() > 0,
        reads(u.mem, u.operand(0), 1, tag as int),
    ensures
        run(
            runtime_match(low, frame, scrutinee, arms, range, scope, at)->0->Ok_0.ops,
            s,
            rounds,
        ) == Flow::Trap,
{
    let (name, ty) = scrutinee_type(scrutinee, frame.params@, scope)->0;
    let slot = at.lets;
    let start = MatchState {
        arms: Seq::empty(),
        covered: Seq::empty(),
        wildcard: false,
        slots: at.after(1),
    };
    let g = runtime_match(low, frame, scrutinee, arms, range, scope, at)->0->Ok_0;
    let state = arms_from(low, &ty, name, arms, slot, range, scope, start, 0)->Ok_0;
    lemma_tag_uncovered(low, ty, name, arms, slot, range, scope, start, 0, tag);
    let result_ty = state.arms[0].ty;
    let tags = variant_tags(ty)->0;
    let i = choose|i: int| 0 <= i < tags.len() && tags[i] == tag;
    assert(!state.covered.contains(tags[i]));
    assert(!covers_all(ty, state.covered));
    let (closed, seen) = closed_arms(ty, state, range)->Ok_0;
    let k = state.arms.len() as int;
    let value = low.lowered(scrutinee, scope, seen)->Ok_0;
    let branches = dispatch(closed, slot, result_ty, range);
    let set = let_set(slot, IrType::I32, scrutinee.range);
    let w = u.popped(1).with_let(slot, u.operand(0));
    assert(run(value.ops, s, rounds) == Flow::Next(u));
    lemma_one_more(
        value.ops,
        SimpleOp::LetSet { idx: slot, ty: IrType::I32 },
        scrutinee.range,
        s,
        u,
        w,
        rounds,
    );
    lemma_run_concat(value.ops.push(set), branches, 0, s, rounds);
    assert(g.ops == value.ops.push(set) + branches);
    assert forall|j: int| 0 <= j < k implies (#[trigger] closed[j]).tag is Some && closed[j].tag
        != Some(tag) by {
        assert(closed[j] == state.arms[j]);
    }
    lemma_simple(
        closed[k].ops,
        0,
        SimpleOp::Trap { kind: TrapKind::NoMatch },
        w,
        rounds,
    );
    law_tag_picks_the_arm(closed, slot, result_ty, range, w, tag, k, Flow::Trap, rounds);
}

/// By the static type, a pattern matches a value of a record type exactly where it names
/// that type, and it is never passed over where it does; a wildcard always matches.
pub proof fn law_static_pattern_matches_the_name_of_the_type(
    ty: IrType,
    brand: Seq<char>,
    pattern: TypeNode,
    builtins: Seq<String>,
)
    requires
        !pattern.is_optional,
        pattern.path@.len() == 1,
        pattern.generics@.len() == 0,
    ensures
        arm_decision(ty, Some(brand), Expr::Type(pattern), builtins) == StaticArmDecision::Matches
            <==> pattern.path@[0]@ == brand,
        arm_decision(ty, Some(brand), Expr::Type(pattern), builtins) == StaticArmDecision::Never
            ==> pattern.path@[0]@ != brand,
        arm_decision(ty, Some(brand), Expr::Wildcard, builtins) == StaticArmDecision::Matches,
{
}

} // verus!

//! A match leaves exactly the value of one arm.

use vstd::prelude::*;

use crate::arms::{
    binding_field, pattern_bindings, pattern_variant, payload_field_type, scrutinee_type,
};
use crate::ast::{Node, PatternBinding, TokenRange};
use crate::fragment::{EnumVariantNarrowing, FragmentView, Scope, SlotsView};
use crate::ir::{IrType, OpView, TaggedOpView};
use crate::matching::{
    arm_branch, arms_from, bound_body, closed_arms, dispatch, dispatched, match_lowered,
    payload_binding, tag_test, trap_body, with_arm, ArmView, MatchState,
};
use crate::neat_reads::lemma_payload_field_read_is_neat;
use crate::records::RecordLowering;
use crate::reference::{payload_read, Frame};
use crate::stack::{
    group_tally, neat, neat_lowering, neat_outcome, neat_value, op_tally, passing, settles, tally,
};
use crate::types::TypeRepr;

verus! {

broadcast use group_tally;

/// Every arm leaves one value, or ends in a trap.
pub open spec fn neat_arms(arms: Seq<ArmView>) -> bool {
    forall|i: int, labels: nat|
        0 <= i < arms.len() ==> settles(#[trigger] tally(arms[i].ops, labels), 0, 1)
}

proof fn lemma_tag_test(scrutinee: u32, tag: u8, range: TokenRange, labels: nat)
    ensures
        tally(tag_test(scrutinee, tag, range), labels) == passing(0, 1),
{
    reveal_with_fuel(tally, 6);
    reveal_with_fuel(op_tally, 6);
}

/// A dispatch on the tag leaves the value of one arm.
pub proof fn law_dispatch_is_neat(
    arms: Seq<ArmView>,
    scrutinee: u32,
    result_ty: IrType,
    range: TokenRange,
    labels: nat,
)
    requires
        arms.len() > 0,
        neat_arms(arms),
    ensures
        settles(tally(dispatch(arms, scrutinee, result_ty, range), labels), 0, 1),
    decreases arms.len(),
{
    assert(settles(tally(arms[0].ops, labels), 0, 1));
    if arms.len() > 1 {
        match arms[0].tag {
            None => {},
            Some(tag) => {
                let rest = arms.drop_first();
                assert(neat_arms(rest)) by {
                    assert forall|i: int, n: nat| 0 <= i < rest.len() implies settles(
                        #[trigger] tally(rest[i].ops, n),
                        0,
                        1,
                    ) by {
                        assert(rest[i] == arms[i + 1]);
                        assert(settles(tally(arms[i + 1].ops, n), 0, 1));
                    }
                }
                law_dispatch_is_neat(rest, scrutinee, result_ty, range, 0);
                assert(settles(tally(arms[0].ops, 0), 0, 1));
                let choice = TaggedOpView {
                    op: OpView::If {
                        result_ty,
                        then_body: arms[0].ops,
                        else_body: dispatch(rest, scrutinee, result_ty, range),
                    },
                    range,
                };
                assert(op_tally(choice, labels) == passing(1, 1));
                lemma_tag_test(scrutinee, tag, arms[0].range, labels);
            },
        }
    }
}

proof fn lemma_bound_body_is_neat<L: RecordLowering>(
    low: L,
    scrutinee: u32,
    n: EnumVariantNarrowing<'_>,
    bindings: Seq<PatternBinding>,
    from: int,
    seen: Seq<String>,
    body: Node,
    range: TokenRange,
    scope: Scope<'_>,
    at: SlotsView,
)
    requires
        neat_lowering(low),
    ensures
        neat_outcome(
            bound_body(low, scrutinee, n, bindings, from, seen, body, range, scope, at),
        ),
    decreases bindings.len() - from,
{
    if 0 <= from < bindings.len() {
        match bindings[from].binding {
            None => {
                lemma_bound_body_is_neat(
                    low,
                    scrutinee,
                    n,
                    bindings,
                    from + 1,
                    seen,
                    body,
                    range,
                    scope,
                    at,
                );
            },
            Some(name) => {
                let field = binding_field(n, bindings[from], from as nat);
                match payload_field_type(n, field, range) {
                    Err(_) => {},
                    Ok(repr) => {
                        lemma_payload_field_read_is_neat(low, field, n, IrType::I32, range, at);
                        match payload_read(low, field, n, IrType::I32, range, at) {
                            Err(_) => {},
                            Ok(f) => {
                                lemma_bound_body_is_neat(
                                    low,
                                    scrutinee,
                                    n,
                                    bindings,
                                    from + 1,
                                    seen.push(name),
                                    body,
                                    range,
                                    Scope::Bind(
                                        payload_binding(
                                            name,
                                            f.slots.lets,
                                            f.ty->0,
                                            repr,
                                        ),
                                        &scope,
                                    ),
                                    f.slots.after(1),
                                );
                            },
                        }
                    },
                }
            },
        }
    }
}

proof fn lemma_arm_branch_is_neat<L: RecordLowering>(
    low: L,
    body: Node,
    range: TokenRange,
    name: String,
    scrutinee: u32,
    narrowing: Option<EnumVariantNarrowing<'_>>,
    bindings: Seq<PatternBinding>,
    scope: Scope<'_>,
    at: SlotsView,
)
    requires
        neat_lowering(low),
    ensures
        neat_value(
            arm_branch(low, body, range, name, scrutinee, narrowing, bindings, scope, at),
        ),
{
    match narrowing {
        Some(n) => {
            lemma_bound_body_is_neat(
                low,
                scrutinee,
                n,
                bindings,
                0,
                Seq::empty(),
                body,
                range,
                Scope::Narrow(&name, n, &scope),
                at,
            );
        },
        None => {},
    }
}

proof fn lemma_with_arm_is_neat(
    state: MatchState,
    tag: Option<u8>,
    body: FragmentView,
    range: TokenRange,
)
    requires
        neat_arms(state.arms),
        body.ty is Some,
        neat(body),
    ensures
        neat_arms(with_arm(state, tag, body, range).arms),
{
    let arms = with_arm(state, tag, body, range).arms;
    assert forall|i: int, labels: nat| 0 <= i < arms.len() implies settles(
        #[trigger] tally(arms[i].ops, labels),
        0,
        1,
    ) by {
        if i < state.arms.len() {
            assert(arms[i] == state.arms[i]);
            assert(settles(tally(state.arms[i].ops, labels), 0, 1));
        } else {
            assert(arms[i].ops == body.ops);
            assert(settles(tally(body.ops, labels), 0, 1));
        }
    }
}

proof fn lemma_arms_are_neat<L: RecordLowering>(
    low: L,
    ty: &TypeRepr,
    name: String,
    arms: Seq<(Node, Node)>,
    scrutinee: u32,
    range: TokenRange,
    scope: Scope<'_>,
    state: MatchState,
    from: int,
)
    requires
        neat_lowering(low),
        neat_arms(state.arms),
    ensures
        arms_from(low, ty, name, arms, scrutinee, range, scope, state, from) matches Ok(s)
            ==> neat_arms(s.arms),
    decreases arms.len() - from,
{
    if 0 <= from < arms.len() {
        let pattern = arms[from].0;
        let body = arms[from].1;
        if *pattern.expr is Wildcard {
            lemma_arm_branch_is_neat(
                low,
                body,
                range,
                name,
                scrutinee,
                None,
                Seq::empty(),
                scope,
                state.slots,
            );
            match arm_branch(
                low,
                body,
                range,
                name,
                scrutinee,
                None,
                Seq::empty(),
                scope,
                state.slots,
            ) {
                Err(_) => {},
                Ok(f) => {
                    lemma_with_arm_is_neat(state, None, f, pattern.range);
                },
            }
        } else if *pattern.expr is Type || *pattern.expr is VariantPattern {
            match pattern_variant(ty, *pattern.expr) {
                None => {},
                Some(n) => {
                    let bindings = pattern_bindings(*pattern.expr);
                    lemma_arm_branch_is_neat(
                        low,
                        body,
                        range,
                        name,
                        scrutinee,
                        Some(n),
                        bindings,
                        scope,
                        state.slots,
                    );
                    match arm_branch(
                        low,
                        body,
                        range,
                        name,
                        scrutinee,
                        Some(n),
                        bindings,
                        scope,
                        state.slots,
                    ) {
                        Err(_) => {},
                        Ok(f) => {
                            lemma_with_arm_is_neat(state, Some(n.tag), f, pattern.range);
                            lemma_arms_are_neat(
                                low,
                                ty,
                                name,
                                arms,
                                scrutinee,
                                range,
                                scope,
                                with_arm(state, Some(n.tag), f, pattern.range),
                                from + 1,
                            );
                        },
                    }
                },
            }
        }
    }
}

proof fn lemma_trap_body(result_ty: IrType, range: TokenRange, at: SlotsView, labels: nat)
    ensures
        trap_body(result_ty, range, at) matches Some((ops, _)) ==> settles(
            tally(ops, labels),
            0,
            1,
        ),
{
    reveal_with_fuel(tally, 4);
    reveal_with_fuel(op_tally, 4);
}

proof fn lemma_closed_arms_are_neat(
    ty: TypeRepr,
    state: MatchState,
    range: TokenRange,
)
    requires
        neat_arms(state.arms),
    ensures
        closed_arms(ty, state, range) matches Ok((arms, _)) ==> neat_arms(arms),
{
    match closed_arms(ty, state, range) {
        Err(_) => {},
        Ok((arms, _)) => {
            assert forall|i: int, labels: nat| 0 <= i < arms.len() implies settles(
                #[trigger] tally(arms[i].ops, labels),
                0,
                1,
            ) by {
                if i < state.arms.len() {
                    assert(arms[i] == state.arms[i]);
                    assert(settles(tally(state.arms[i].ops, labels), 0, 1));
                } else {
                    lemma_trap_body(state.arms[0].ty, range, state.slots, labels);
                }
            }
        },
    }
}

/// A match leaves the value of one arm and nothing else, whether the arm is
/// chosen at run time by the tag or beforehand by the type.
pub proof fn law_match_is_neat<L: RecordLowering>(
    low: L,
    frame: Frame<'_>,
    scrutinee: Node,
    arms: Seq<(Node, Node)>,
    builtins: Seq<String>,
    range: TokenRange,
    scope: Scope<'_>,
    at: SlotsView,
)
    requires
        neat_lowering(low),
    ensures
        neat_outcome(
            match_lowered(low, frame, scrutinee, arms, builtins, range, scope, at),
        ),
{
    match scrutinee_type(scrutinee, frame.params@, scope) {
        None => {},
        Some((name, ty)) => {
            if arms.len() > 0 {
                let first = MatchState {
                    arms: Seq::empty(),
                    covered: Seq::empty(),
                    wildcard: false,
                    slots: at.after(1),
                };
                lemma_arms_are_neat(low, &ty, name, arms, at.lets, range, scope, first, 0);
                match arms_from(low, &ty, name, arms, at.lets, range, scope, first, 0) {
                    Err(_) => {},
                    Ok(state) => {
                        if state.arms.len() > 0 {
                            let result_ty = state.arms[0].ty;
                            lemma_closed_arms_are_neat(ty, state, range);
                            match closed_arms(ty, state, range) {
                                Err(_) => {},
                                Ok((all, _)) => {
                                    assert forall|labels: nat| settles(
                                        #[trigger] tally(
                                            dispatch(all, at.lets, result_ty, range),
                                            labels,
                                        ),
                                        0,
                                        1,
                                    ) by {
                                        law_dispatch_is_neat(
                                            all,
                                            at.lets,
                                            result_ty,
                                            range,
                                            labels,
                                        );
                                    }
                                    assert(neat_outcome(
                                        dispatched(
                                            low,
                                            scrutinee,
                                            all,
                                            at.lets,
                                            result_ty,
                                            range,
                                            scope,
                                            state.slots,
                                        ),
                                    ));
                                },
                            }
                        }
                    },
                }
            }
        },
    }
}

} // verus!

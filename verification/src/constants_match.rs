//! A match refers only to what is interned.

use vstd::prelude::*;

use crate::arms::{
    binding_field, pattern_bindings, pattern_variant, payload_field_type, scrutinee_type,
};
use crate::ast::{Node, PatternBinding, TokenRange};
use crate::constants::{group_known, grows, keeping, kept, known, op_known, well_kept};
use crate::constants_reads::lemma_payload_field_read_keeps;
use crate::fragment::{EnumVariantNarrowing, FragmentView, Scope, SlotsView};
use crate::ir::{IrType, OpView, TaggedOpView};
use crate::matching::{
    arm_branch, arms_from, bound_body, closed_arms, dispatch, dispatched, match_lowered,
    payload_binding, tag_test, with_arm, ArmView, MatchState,
};
use crate::records::RecordLowering;
use crate::reference::{payload_read, Frame};
use crate::types::TypeRepr;

verus! {

broadcast use group_known;

/// Every arm refers to what is interned.
pub open spec fn known_arms(arms: Seq<ArmView>, at: SlotsView) -> bool {
    forall|i: int| 0 <= i < arms.len() ==> known(#[trigger] arms[i].ops, at)
}

proof fn lemma_known_arms_grow(arms: Seq<ArmView>, a: SlotsView, b: SlotsView)
    requires
        known_arms(arms, a),
        grows(a, b),
    ensures
        known_arms(arms, b),
{
}

/// A dispatch on the tag refers to what its arms do.
pub proof fn law_dispatch_keeps(
    arms: Seq<ArmView>,
    scrutinee: u32,
    result_ty: IrType,
    range: TokenRange,
    at: SlotsView,
)
    requires
        arms.len() > 0,
        known_arms(arms, at),
    ensures
        known(dispatch(arms, scrutinee, result_ty, range), at),
    decreases arms.len(),
{
    assert(known(arms[0].ops, at));
    match arms[0].tag {
        Some(tag) => if arms.len() > 1 {
            let rest = arms.drop_first();
            assert forall|i: int| 0 <= i < rest.len() implies known(
                #[trigger] rest[i].ops,
                at,
            ) by {
                assert(rest[i] == arms[i + 1]);
            }
            law_dispatch_keeps(rest, scrutinee, result_ty, range, at);
            let choice = TaggedOpView {
                op: OpView::If {
                    result_ty,
                    then_body: arms[0].ops,
                    else_body: dispatch(rest, scrutinee, result_ty, range),
                },
                range,
            };
            assert(op_known(choice, at));
            assert(known(tag_test(scrutinee, tag, arms[0].range), at));
        },
        None => {},
    }
}

proof fn lemma_bound_body_keeps<L: RecordLowering>(
    low: L,
    scrutinee: u32,
    n: EnumVariantNarrowing<'_>,
    bindings: Seq<PatternBinding>,
    from: int,
    seen: Seq<String>,
    body: Node,
    range: TokenRange,
    scope: Scope<'_>,
    at: SlotsView,
)
    requires
        keeping(low),
    ensures
        kept(at, bound_body(low, scrutinee, n, bindings, from, seen, body, range, scope, at)),
    decreases bindings.len() - from,
{
    if 0 <= from < bindings.len() {
        match bindings[from].binding {
            None => {
                lemma_bound_body_keeps(
                    low,
                    scrutinee,
                    n,
                    bindings,
                    from + 1,
                    seen,
                    body,
                    range,
                    scope,
                    at,
                );
            },
            Some(name) => {
                let field = binding_field(n, bindings[from], from as nat);
                match payload_field_type(n, field, range) {
                    Err(_) => {},
                    Ok(repr) => {
                        lemma_payload_field_read_keeps(low, field, n, IrType::I32, range, at);
                        match payload_read(low, field, n, IrType::I32, range, at) {
                            Err(_) => {},
                            Ok(f) => {
                                lemma_bound_body_keeps(
                                    low,
                                    scrutinee,
                                    n,
                                    bindings,
                                    from + 1,
                                    seen.push(name),
                                    body,
                                    range,
                                    Scope::Bind(
                                        payload_binding(
                                            name,
                                            f.slots.lets,
                                            f.ty->0,
                                            repr,
                                        ),
                                        &scope,
                                    ),
                                    f.slots.after(1),
                                );
                            },
                        }
                    },
                }
            },
        }
    }
}

proof fn lemma_arm_branch_keeps<L: RecordLowering>(
    low: L,
    body: Node,
    range: TokenRange,
    name: String,
    scrutinee: u32,
    narrowing: Option<EnumVariantNarrowing<'_>>,
    bindings: Seq<PatternBinding>,
    scope: Scope<'_>,
    at: SlotsView,
)
    requires
        keeping(low),
    ensures
        kept(
            at,
            arm_branch(low, body, range, name, scrutinee, narrowing, bindings, scope, at),
        ),
{
    match narrowing {
        Some(n) => {
            lemma_bound_body_keeps(
                low,
                scrutinee,
                n,
                bindings,
                0,
                Seq::empty(),
                body,
                range,
                Scope::Narrow(&name, n, &scope),
                at,
            );
        },
        None => {},
    }
}

proof fn lemma_with_arm_keeps(
    state: MatchState,
    tag: Option<u8>,
    body: FragmentView,
    range: TokenRange,
)
    requires
        known_arms(state.arms, state.slots),
        well_kept(state.slots, body),
    ensures
        known_arms(with_arm(state, tag, body, range).arms, body.slots),
{
    lemma_known_arms_grow(state.arms, state.slots, body.slots);
    let arms = with_arm(state, tag, body, range).arms;
    assert forall|i: int| 0 <= i < arms.len() implies known(
        #[trigger] arms[i].ops,
        body.slots,
    ) by {
        if i < state.arms.len() {
            assert(arms[i] == state.arms[i]);
        }
    }
}

proof fn lemma_arms_keep<L: RecordLowering>(
    low: L,
    ty: &TypeRepr,
    name: String,
    arms: Seq<(Node, Node)>,
    scrutinee: u32,
    range: TokenRange,
    scope: Scope<'_>,
    state: MatchState,
    from: int,
)
    requires
        keeping(low),
        known_arms(state.arms, state.slots),
    ensures
        arms_from(low, ty, name, arms, scrutinee, range, scope, state, from) matches Ok(s)
            ==> known_arms(s.arms, s.slots) && grows(state.slots, s.slots),
    decreases arms.len() - from,
{
    if 0 <= from < arms.len() {
        let pattern = arms[from].0;
        let body = arms[from].1;
        if *pattern.expr is Wildcard {
            let bindings = Seq::<PatternBinding>::empty();
            let at = state.slots;
            lemma_arm_branch_keeps(low, body, range, name, scrutinee, None, bindings, scope, at);
            match arm_branch(low, body, range, name, scrutinee, None, bindings, scope, at) {
                Err(_) => {},
                Ok(f) => {
                    lemma_with_arm_keeps(state, None, f, pattern.range);
                },
            }
        } else if *pattern.expr is Type || *pattern.expr is VariantPattern {
            match pattern_variant(ty, *pattern.expr) {
                None => {},
                Some(n) => {
                    let bindings = pattern_bindings(*pattern.expr);
                    let at = state.slots;
                    lemma_arm_branch_keeps(
                        low,
                        body,
                        range,
                        name,
                        scrutinee,
                        Some(n),
                        bindings,
                        scope,
                        at,
                    );
                    match arm_branch(
                        low,
                        body,
                        range,
                        name,
                        scrutinee,
                        Some(n),
                        bindings,
                        scope,
                        at,
                    ) {
                        Err(_) => {},
                        Ok(f) => {
                            lemma_with_arm_keeps(state, Some(n.tag), f, pattern.range);
                            lemma_arms_keep(
                                low,
                                ty,
                                name,
                                arms,
                                scrutinee,
                                range,
                                scope,
                                with_arm(state, Some(n.tag), f, pattern.range),
                                from + 1,
                            );
                        },
                    }
                },
            }
        }
    }
}

proof fn lemma_closed_arms_keep(ty: TypeRepr, state: MatchState, range: TokenRange)
    requires
        known_arms(state.arms, state.slots),
    ensures
        closed_arms(ty, state, range) matches Ok((arms, at)) ==> known_arms(arms, at) && grows(
            state.slots,
            at,
        ),
{
    match closed_arms(ty, state, range) {
        Err(_) => {},
        Ok((arms, at)) => {
            assert(grows(state.slots, at));
            lemma_known_arms_grow(state.arms, state.slots, at);
            assert forall|i: int| 0 <= i < arms.len() implies known(
                #[trigger] arms[i].ops,
                at,
            ) by {
                if i < state.arms.len() {
                    assert(arms[i] == state.arms[i]);
                }
            }
        },
    }
}

/// A match refers to what is interned, whether its arm is chosen at run time by
/// the tag or beforehand by the type.
pub proof fn law_match_keeps<L: RecordLowering>(
    low: L,
    frame: Frame<'_>,
    scrutinee: Node,
    arms: Seq<(Node, Node)>,
    builtins: Seq<String>,
    range: TokenRange,
    scope: Scope<'_>,
    at: SlotsView,
)
    requires
        keeping(low),
    ensures
        kept(at, match_lowered(low, frame, scrutinee, arms, builtins, range, scope, at)),
{
    match scrutinee_type(scrutinee, frame.params@, scope) {
        None => {},
        Some((name, ty)) => {
            if arms.len() > 0 {
                let first = MatchState {
                    arms: Seq::empty(),
                    covered: Seq::empty(),
                    wildcard: false,
                    slots: at.after(1),
                };
                lemma_arms_keep(low, &ty, name, arms, at.lets, range, scope, first, 0);
                match arms_from(low, &ty, name, arms, at.lets, range, scope, first, 0) {
                    Err(_) => {},
                    Ok(state) => {
                        if state.arms.len() > 0 {
                            let result_ty = state.arms[0].ty;
                            lemma_closed_arms_keep(ty, state, range);
                            match closed_arms(ty, state, range) {
                                Err(_) => {},
                                Ok((all, more)) => {
                                    lemma_dispatched_keeps(
                                        low,
                                        scrutinee,
                                        all,
                                        at.lets,
                                        result_ty,
                                        range,
                                        scope,
                                        more,
                                    );
                                },
                            }
                        }
                    },
                }
            }
        },
    }
}

proof fn lemma_dispatched_keeps<L: RecordLowering>(
    low: L,
    scrutinee: Node,
    arms: Seq<ArmView>,
    slot: u32,
    result_ty: IrType,
    range: TokenRange,
    scope: Scope<'_>,
    at: SlotsView,
)
    requires
        keeping(low),
        arms.len() > 0,
        known_arms(arms, at),
    ensures
        kept(at, dispatched(low, scrutinee, arms, slot, result_ty, range, scope, at)),
{
    match low.lowered(scrutinee, scope, at) {
        Err(_) => {},
        Ok(f) => {
            assert(kept(at, low.lowered(scrutinee, scope, at)));
            lemma_known_arms_grow(arms, at, f.slots);
            law_dispatch_keeps(arms, slot, result_ty, range, f.slots);
        },
    }
}

} // verus!

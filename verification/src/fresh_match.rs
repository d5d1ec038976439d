//! A match has slots of its own.

use vstd::prelude::*;

use crate::arms::{
    binding_field, pattern_bindings, pattern_variant, payload_field_type, scrutinee_type,
};
use crate::ast::{Node, PatternBinding, TokenRange};
use crate::fragment::{EnumVariantNarrowing, FragmentView, Scope, SlotsView};
use crate::fresh::{
    fresh, fresh_since, freshening, freshly, given, group_owned, one_typed, op_owned, op_sets,
    owned, passes, sets,
};
use crate::fresh_reads::lemma_payload_field_read_is_fresh;
use crate::ir::{IrType, OpView, TaggedOpView};
use crate::matching::{
    arm_branch, arms_from, bound_body, closed_arms, dispatch, dispatched, match_lowered,
    payload_binding, tag_test, with_arm, ArmView, MatchState,
};
use crate::records::RecordLowering;
use crate::reference::{payload_read, Frame};
use crate::types::TypeRepr;

verus! {

broadcast use group_owned;

/// Every arm has slots of its own.
pub open spec fn owned_arms(arms: Seq<ArmView>, a: SlotsView, b: SlotsView) -> bool {
    forall|i: int| 0 <= i < arms.len() ==> owned(#[trigger] arms[i].ops, a, b)
}

/// No let slot is set under two types, in whatever arms.
pub open spec fn arms_one_typed(arms: Seq<ArmView>) -> bool {
    forall|i: int, j: int, n: u32, t: IrType, u: IrType|
        0 <= i < arms.len() && 0 <= j < arms.len() && #[trigger] sets(arms[i].ops, n, t)
            && #[trigger] sets(arms[j].ops, n, u) ==> t == u
}

proof fn lemma_owned_arms_grow(
    arms: Seq<ArmView>,
    first: SlotsView,
    a: SlotsView,
    b: SlotsView,
)
    requires
        owned_arms(arms, first, a),
        passes(a, b),
    ensures
        owned_arms(arms, first, b),
{
    assert forall|i: int| 0 <= i < arms.len() implies owned(
        #[trigger] arms[i].ops,
        first,
        b,
    ) by {
        assert(owned(arms[i].ops, first, a));
    }
}

/// A dispatch on the tag has the slots of its arms.
pub proof fn law_dispatch_is_fresh(
    arms: Seq<ArmView>,
    scrutinee: u32,
    result_ty: IrType,
    range: TokenRange,
    a: SlotsView,
    b: SlotsView,
)
    requires
        arms.len() > 0,
        owned_arms(arms, a, b),
    ensures
        owned(dispatch(arms, scrutinee, result_ty, range), a, b),
    decreases arms.len(),
{
    assert(owned(arms[0].ops, a, b));
    match arms[0].tag {
        Some(tag) => if arms.len() > 1 {
            let rest = arms.drop_first();
            assert forall|i: int| 0 <= i < rest.len() implies owned(
                #[trigger] rest[i].ops,
                a,
                b,
            ) by {
                assert(rest[i] == arms[i + 1]);
            }
            law_dispatch_is_fresh(rest, scrutinee, result_ty, range, a, b);
            let choice = TaggedOpView {
                op: OpView::If {
                    result_ty,
                    then_body: arms[0].ops,
                    else_body: dispatch(rest, scrutinee, result_ty, range),
                },
                range,
            };
            assert(op_owned(choice, a, b));
            assert(owned(tag_test(scrutinee, tag, arms[0].range), a, b));
        },
        None => {},
    }
}

proof fn lemma_dispatch_sets(
    arms: Seq<ArmView>,
    scrutinee: u32,
    result_ty: IrType,
    range: TokenRange,
    n: u32,
    t: IrType,
) -> (i: int)
    requires
        arms.len() > 0,
        sets(dispatch(arms, scrutinee, result_ty, range), n, t),
    ensures
        0 <= i < arms.len(),
        sets(arms[i].ops, n, t),
    decreases arms.len(),
{
    match arms[0].tag {
        Some(tag) => if arms.len() > 1 && !sets(arms[0].ops, n, t) {
            let rest = arms.drop_first();
            let choice = TaggedOpView {
                op: OpView::If {
                    result_ty,
                    then_body: arms[0].ops,
                    else_body: dispatch(rest, scrutinee, result_ty, range),
                },
                range,
            };
            assert(!sets(tag_test(scrutinee, tag, arms[0].range), n, t));
            assert(op_sets(choice, n, t));
            let i = lemma_dispatch_sets(rest, scrutinee, result_ty, range, n, t);
            assert(rest[i] == arms[i + 1]);
            i + 1
        } else {
            0
        },
        None => 0,
    }
}

/// A dispatch on the tag sets no slot under two types if its arms do not.
pub proof fn law_dispatch_is_one_typed(
    arms: Seq<ArmView>,
    scrutinee: u32,
    result_ty: IrType,
    range: TokenRange,
)
    requires
        arms.len() > 0,
        arms_one_typed(arms),
    ensures
        one_typed(dispatch(arms, scrutinee, result_ty, range)),
{
    let ops = dispatch(arms, scrutinee, result_ty, range);
    assert forall|n: u32, t: IrType, u: IrType| #[trigger] sets(ops, n, t) && #[trigger] sets(
        ops,
        n,
        u,
    ) implies t == u by {
        let i = lemma_dispatch_sets(arms, scrutinee, result_ty, range, n, t);
        let j = lemma_dispatch_sets(arms, scrutinee, result_ty, range, n, u);
        assert(sets(arms[i].ops, n, t) && sets(arms[j].ops, n, u));
    }
}

proof fn lemma_bound_body_is_fresh<L: RecordLowering>(
    low: L,
    scrutinee: u32,
    n: EnumVariantNarrowing<'_>,
    bindings: Seq<PatternBinding>,
    from: int,
    seen: Seq<String>,
    body: Node,
    range: TokenRange,
    scope: Scope<'_>,
    at: SlotsView,
)
    requires
        freshening(low),
    ensures
        fresh(at, bound_body(low, scrutinee, n, bindings, from, seen, body, range, scope, at)),
    decreases bindings.len() - from,
{
    if 0 <= from < bindings.len() {
        match bindings[from].binding {
            None => {
                lemma_bound_body_is_fresh(
                    low,
                    scrutinee,
                    n,
                    bindings,
                    from + 1,
                    seen,
                    body,
                    range,
                    scope,
                    at,
                );
            },
            Some(name) => {
                let field = binding_field(n, bindings[from], from as nat);
                match payload_field_type(n, field, range) {
                    Err(_) => {},
                    Ok(repr) => {
                        lemma_payload_field_read_is_fresh(low, field, n, IrType::I32, range, at);
                        match payload_read(low, field, n, IrType::I32, range, at) {
                            Err(_) => {},
                            Ok(f) => {
                                lemma_bound_body_is_fresh(
                                    low,
                                    scrutinee,
                                    n,
                                    bindings,
                                    from + 1,
                                    seen.push(name),
                                    body,
                                    range,
                                    Scope::Bind(
                                        payload_binding(
                                            name,
                                            f.slots.lets,
                                            f.ty->0,
                                            repr,
                                        ),
                                        &scope,
                                    ),
                                    f.slots.after(1),
                                );
                            },
                        }
                    },
                }
            },
        }
    }
}

proof fn lemma_arm_branch_is_fresh<L: RecordLowering>(
    low: L,
    body: Node,
    range: TokenRange,
    name: String,
    scrutinee: u32,
    narrowing: Option<EnumVariantNarrowing<'_>>,
    bindings: Seq<PatternBinding>,
    scope: Scope<'_>,
    at: SlotsView,
)
    requires
        freshening(low),
    ensures
        fresh(
            at,
            arm_branch(low, body, range, name, scrutinee, narrowing, bindings, scope, at),
        ),
{
    match narrowing {
        Some(n) => {
            lemma_bound_body_is_fresh(
                low,
                scrutinee,
                n,
                bindings,
                0,
                Seq::empty(),
                body,
                range,
                Scope::Narrow(&name, n, &scope),
                at,
            );
        },
        None => {},
    }
}

proof fn lemma_with_arm_is_fresh(
    state: MatchState,
    tag: Option<u8>,
    body: FragmentView,
    range: TokenRange,
    first: SlotsView,
)
    requires
        passes(first, state.slots),
        owned_arms(state.arms, first, state.slots),
        state.slots.lets < u32::MAX ==> arms_one_typed(state.arms),
        fresh_since(state.slots, state.slots, body),
    ensures
        owned_arms(with_arm(state, tag, body, range).arms, first, body.slots),
        body.slots.lets < u32::MAX ==> arms_one_typed(with_arm(state, tag, body, range).arms),
{
    lemma_owned_arms_grow(state.arms, first, state.slots, body.slots);
    let arms = with_arm(state, tag, body, range).arms;
    assert forall|i: int| 0 <= i < arms.len() implies owned(
        #[trigger] arms[i].ops,
        first,
        body.slots,
    ) by {
        if i < state.arms.len() {
            assert(arms[i] == state.arms[i]);
        }
    }
    if body.slots.lets < u32::MAX {
        assert forall|i: int, j: int, n: u32, t: IrType, u: IrType|
            0 <= i < arms.len() && 0 <= j < arms.len() && #[trigger] sets(arms[i].ops, n, t)
                && #[trigger] sets(arms[j].ops, n, u) implies t == u by {
            let k = state.arms.len() as int;
            if i < k {
                assert(arms[i] == state.arms[i]);
                assert(owned(state.arms[i].ops, first, state.slots));
            }
            if j < k {
                assert(arms[j] == state.arms[j]);
                assert(owned(state.arms[j].ops, first, state.slots));
            }
        }
    }
}

proof fn lemma_arms_are_fresh<L: RecordLowering>(
    low: L,
    ty: &TypeRepr,
    name: String,
    arms: Seq<(Node, Node)>,
    scrutinee: u32,
    range: TokenRange,
    scope: Scope<'_>,
    state: MatchState,
    from: int,
    first: SlotsView,
)
    requires
        freshening(low),
        passes(first, state.slots),
        owned_arms(state.arms, first, state.slots),
        state.slots.lets < u32::MAX ==> arms_one_typed(state.arms),
    ensures
        arms_from(low, ty, name, arms, scrutinee, range, scope, state, from) matches Ok(s)
            ==> owned_arms(s.arms, first, s.slots) && passes(state.slots, s.slots) && (s.slots.lets
            < u32::MAX ==> arms_one_typed(s.arms)),
    decreases arms.len() - from,
{
    if 0 <= from < arms.len() {
        let pattern = arms[from].0;
        let body = arms[from].1;
        if *pattern.expr is Wildcard {
            let bindings = Seq::<PatternBinding>::empty();
            let at = state.slots;
            lemma_arm_branch_is_fresh(low, body, range, name, scrutinee, None, bindings, scope, at);
            match arm_branch(low, body, range, name, scrutinee, None, bindings, scope, at) {
                Err(_) => {},
                Ok(f) => {
                    lemma_with_arm_is_fresh(state, None, f, pattern.range, first);
                },
            }
        } else if *pattern.expr is Type || *pattern.expr is VariantPattern {
            match pattern_variant(ty, *pattern.expr) {
                None => {},
                Some(n) => {
                    let bindings = pattern_bindings(*pattern.expr);
                    let at = state.slots;
                    lemma_arm_branch_is_fresh(
                        low,
                        body,
                        range,
                        name,
                        scrutinee,
                        Some(n),
                        bindings,
                        scope,
                        at,
                    );
                    match arm_branch(
                        low,
                        body,
                        range,
                        name,
                        scrutinee,
                        Some(n),
                        bindings,
                        scope,
                        at,
                    ) {
                        Err(_) => {},
                        Ok(f) => {
                            lemma_with_arm_is_fresh(
                                state,
                                Some(n.tag),
                                f,
                                pattern.range,
                                first,
                            );
                            lemma_arms_are_fresh(
                                low,
                                ty,
                                name,
                                arms,
                                scrutinee,
                                range,
                                scope,
                                with_arm(state, Some(n.tag), f, pattern.range),
                                from + 1,
                                first,
                            );
                        },
                    }
                },
            }
        }
    }
}

proof fn lemma_closed_arms_are_fresh(
    ty: TypeRepr,
    state: MatchState,
    range: TokenRange,
    first: SlotsView,
)
    requires
        passes(first, state.slots),
        owned_arms(state.arms, first, state.slots),
        state.slots.lets < u32::MAX ==> arms_one_typed(state.arms),
    ensures
        closed_arms(ty, state, range) matches Ok((arms, at)) ==> owned_arms(arms, first, at)
            && passes(state.slots, at) && (at.lets < u32::MAX ==> arms_one_typed(arms)),
{
    match closed_arms(ty, state, range) {
        Err(_) => {},
        Ok((arms, at)) => {
            assert(passes(state.slots, at));
            lemma_owned_arms_grow(state.arms, first, state.slots, at);
            assert forall|i: int| 0 <= i < arms.len() implies owned(
                #[trigger] arms[i].ops,
                first,
                at,
            ) by {
                if i < state.arms.len() {
                    assert(arms[i] == state.arms[i]);
                }
            }
            if at.lets < u32::MAX {
                assert forall|i: int, j: int, n: u32, t: IrType, u: IrType|
                    0 <= i < arms.len() && 0 <= j < arms.len() && #[trigger] sets(
                        arms[i].ops,
                        n,
                        t,
                    ) && #[trigger] sets(arms[j].ops, n, u) implies t == u by {
                    let k = state.arms.len() as int;
                    if i < k {
                        assert(arms[i] == state.arms[i]);
                    }
                    if j < k {
                        assert(arms[j] == state.arms[j]);
                    }
                }
            }
        },
    }
}

/// A match has slots of its own, whether its arm is chosen at run time by
/// the tag or beforehand by the type.
pub proof fn law_match_is_fresh<L: RecordLowering>(
    low: L,
    frame: Frame<'_>,
    scrutinee: Node,
    arms: Seq<(Node, Node)>,
    builtins: Seq<String>,
    range: TokenRange,
    scope: Scope<'_>,
    at: SlotsView,
)
    requires
        freshening(low),
    ensures
        fresh(at, match_lowered(low, frame, scrutinee, arms, builtins, range, scope, at)),
{
    match scrutinee_type(scrutinee, frame.params@, scope) {
        None => {},
        Some((name, ty)) => {
            if arms.len() > 0 {
                let first = MatchState {
                    arms: Seq::empty(),
                    covered: Seq::empty(),
                    wildcard: false,
                    slots: at.after(1),
                };
                let next = at.after(1);
                lemma_arms_are_fresh(low, &ty, name, arms, at.lets, range, scope, first, 0, next);
                match arms_from(low, &ty, name, arms, at.lets, range, scope, first, 0) {
                    Err(_) => {},
                    Ok(state) => {
                        if state.arms.len() > 0 {
                            let result_ty = state.arms[0].ty;
                            lemma_closed_arms_are_fresh(ty, state, range, at.after(1));
                            match closed_arms(ty, state, range) {
                                Err(_) => {},
                                Ok((all, more)) => {
                                    lemma_dispatched_is_fresh(
                                        low,
                                        scrutinee,
                                        all,
                                        at.lets,
                                        result_ty,
                                        range,
                                        scope,
                                        at,
                                        at.after(1),
                                        more,
                                    );
                                },
                            }
                        }
                    },
                }
            }
        },
    }
}

proof fn lemma_dispatched_is_fresh<L: RecordLowering>(
    low: L,
    scrutinee: Node,
    arms: Seq<ArmView>,
    slot: u32,
    result_ty: IrType,
    range: TokenRange,
    scope: Scope<'_>,
    from: SlotsView,
    first: SlotsView,
    at: SlotsView,
)
    requires
        freshening(low),
        arms.len() > 0,
        passes(from, first),
        passes(first, at),
        given(slot, from.lets, first.lets),
        owned_arms(arms, first, at),
        at.lets < u32::MAX ==> arms_one_typed(arms),
    ensures
        freshly(from, at, dispatched(low, scrutinee, arms, slot, result_ty, range, scope, at)),
{
    match low.lowered(scrutinee, scope, at) {
        Err(_) => {},
        Ok(f) => {
            assert(fresh(at, low.lowered(scrutinee, scope, at)));
            law_dispatch_is_fresh(arms, slot, result_ty, range, first, at);
            let ops = dispatch(arms, slot, result_ty, range);
            assert(owned(ops, first, at));
            if f.slots.lets < u32::MAX {
                law_dispatch_is_one_typed(arms, slot, result_ty, range);
            }
        },
    }
}

} // verus!

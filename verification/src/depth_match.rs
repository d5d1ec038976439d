//! Matches ask for nothing but their parts.

use vstd::prelude::*;

use crate::arms::{binding_field, pattern_bindings, pattern_variant, payload_field_type};
use crate::ast::{Node, PatternBinding, TokenRange};
use crate::depth::{agree, alike, alike_records, arms_nest, nests};
use crate::depth_reads::lemma_payload_read_agrees;
use crate::fragment::{slot, EnumVariantNarrowing, Scope, SlotsView, SubLowering};
use crate::index::probe;
use crate::ir::IrType;
use crate::matching::{
    arm_branch, arms_from, bound_body, discarded, dispatched, finished,
    law_first_matching_arm_wins, match_lowered, payload_binding, probed, runtime_match, selection,
    static_match, with_arm, ArmView, MatchState,
};
use crate::records::RecordLowering;
use crate::reference::{payload_read, Frame};
use crate::types::TypeRepr;

verus! {

/// [`bound_body`] asks for nothing but its parts.
pub broadcast proof fn lemma_bound_body_agrees<L: RecordLowering, H: RecordLowering>(
    l: L,
    h: H,
    n: nat,
    scrutinee: u32,
    narrow: EnumVariantNarrowing<'_>,
    bindings: Seq<PatternBinding>,
    from: int,
    seen: Seq<String>,
    body: Node,
    range: TokenRange,
    scope: Scope<'_>,
    at: SlotsView,
)
    requires
        #[trigger] agree(l, h, n),
        alike_records(l, h),
        nests(n, *body.expr),
    ensures
        #[trigger] bound_body(
            l,
            scrutinee,
            narrow,
            bindings,
            from,
            seen,
            body,
            range,
            scope,
            at,
        ) == #[trigger] bound_body(
            h,
            scrutinee,
            narrow,
            bindings,
            from,
            seen,
            body,
            range,
            scope,
            at,
        ),
    decreases bindings.len() - from,
{
    broadcast use lemma_payload_read_agrees;

    if 0 <= from < bindings.len() {
        match bindings[from].binding {
            None => {
                lemma_bound_body_agrees(
                    l,
                    h,
                    n,
                    scrutinee,
                    narrow,
                    bindings,
                    from + 1,
                    seen,
                    body,
                    range,
                    scope,
                    at,
                );
            },
            Some(name) => {
                let field = binding_field(narrow, bindings[from], from as nat);
                if let (Ok(repr), Ok(f)) = (
                    payload_field_type(narrow, field, range),
                    payload_read(l, field, narrow, IrType::I32, range, at),
                ) {
                    lemma_bound_body_agrees(
                        l,
                        h,
                        n,
                        scrutinee,
                        narrow,
                        bindings,
                        from + 1,
                        seen.push(name),
                        body,
                        range,
                        Scope::Bind(payload_binding(name, f.slots.lets, f.ty->0, repr), &scope),
                        f.slots.after(1),
                    );
                }
            },
        }
    }
}

/// [`arm_branch`] asks for nothing but its parts.
pub broadcast proof fn lemma_arm_branch_agrees<L: RecordLowering, H: RecordLowering>(
    l: L,
    h: H,
    n: nat,
    body: Node,
    range: TokenRange,
    name: String,
    scrutinee: u32,
    narrowing: Option<EnumVariantNarrowing<'_>>,
    bindings: Seq<PatternBinding>,
    scope: Scope<'_>,
    at: SlotsView,
)
    requires
        #[trigger] agree(l, h, n),
        alike_records(l, h),
        nests(n, *body.expr),
    ensures
        #[trigger] arm_branch(
            l,
            body,
            range,
            name,
            scrutinee,
            narrowing,
            bindings,
            scope,
            at,
        ) == #[trigger] arm_branch(
            h,
            body,
            range,
            name,
            scrutinee,
            narrowing,
            bindings,
            scope,
            at,
        ),
{
    broadcast use lemma_bound_body_agrees;
}

/// [`arms_from`] asks for nothing but its parts.
pub broadcast proof fn lemma_arms_from_agrees<L: RecordLowering, H: RecordLowering>(
    l: L,
    h: H,
    n: nat,
    ty: &TypeRepr,
    name: String,
    arms: Seq<(Node, Node)>,
    scrutinee: u32,
    range: TokenRange,
    scope: Scope<'_>,
    state: MatchState,
    from: int,
)
    requires
        #[trigger] agree(l, h, n),
        alike_records(l, h),
        arms_nest(n, arms),
    ensures
        #[trigger] arms_from(
            l,
            ty,
            name,
            arms,
            scrutinee,
            range,
            scope,
            state,
            from,
        ) == #[trigger] arms_from(
            h,
            ty,
            name,
            arms,
            scrutinee,
            range,
            scope,
            state,
            from,
        ),
    decreases arms.len() - from,
{
    broadcast use lemma_arm_branch_agrees;

    if 0 <= from < arms.len() {
        let pattern = arms[from].0;
        let body = arms[from].1;
        assert(nests(n, *body.expr));
        if let Some(v) = pattern_variant(ty, *pattern.expr) {
            if let Ok(f) = arm_branch(
                l,
                body,
                range,
                name,
                scrutinee,
                Some(v),
                pattern_bindings(*pattern.expr),
                scope,
                state.slots,
            ) {
                lemma_arms_from_agrees(
                    l,
                    h,
                    n,
                    ty,
                    name,
                    arms,
                    scrutinee,
                    range,
                    scope,
                    with_arm(state, Some(v.tag), f, pattern.range),
                    from + 1,
                );
            }
        }
    }
}

/// [`finished`] asks for nothing but its parts.
pub broadcast proof fn lemma_finished_agrees<L: RecordLowering, H: RecordLowering>(
    l: L,
    h: H,
    n: nat,
    scrutinee: Node,
    ty: TypeRepr,
    state: MatchState,
    slot: u32,
    range: TokenRange,
    scope: Scope<'_>,
)
    requires
        #[trigger] agree(l, h, n),
        alike_records(l, h),
        nests(n, *scrutinee.expr),
    ensures
        #[trigger] finished(
            l,
            scrutinee,
            ty,
            state,
            slot,
            range,
            scope,
        ) == #[trigger] finished(
            h,
            scrutinee,
            ty,
            state,
            slot,
            range,
            scope,
        ),
{
    broadcast use lemma_dispatched_agrees;
}

/// [`dispatched`] asks for nothing but its parts.
pub broadcast proof fn lemma_dispatched_agrees<L: RecordLowering, H: RecordLowering>(
    l: L,
    h: H,
    n: nat,
    scrutinee: Node,
    arms: Seq<ArmView>,
    slot: u32,
    result_ty: IrType,
    range: TokenRange,
    scope: Scope<'_>,
    at: SlotsView,
)
    requires
        #[trigger] agree(l, h, n),
        alike_records(l, h),
        nests(n, *scrutinee.expr),
    ensures
        #[trigger] dispatched(
            l,
            scrutinee,
            arms,
            slot,
            result_ty,
            range,
            scope,
            at,
        ) == #[trigger] dispatched(
            h,
            scrutinee,
            arms,
            slot,
            result_ty,
            range,
            scope,
            at,
        ),
{
}

/// [`runtime_match`] asks for nothing but its parts.
pub broadcast proof fn lemma_runtime_match_agrees<L: RecordLowering, H: RecordLowering>(
    l: L,
    h: H,
    n: nat,
    frame: Frame<'_>,
    scrutinee: Node,
    arms: Seq<(Node, Node)>,
    range: TokenRange,
    scope: Scope<'_>,
    at: SlotsView,
)
    requires
        #[trigger] agree(l, h, n),
        alike_records(l, h),
        nests(n, *scrutinee.expr),
        arms_nest(n, arms),
    ensures
        #[trigger] runtime_match(
            l,
            frame,
            scrutinee,
            arms,
            range,
            scope,
            at,
        ) == #[trigger] runtime_match(
            h,
            frame,
            scrutinee,
            arms,
            range,
            scope,
            at,
        ),
{
    broadcast use {lemma_arms_from_agrees, lemma_finished_agrees};
}

/// [`discarded`] asks for nothing but its parts.
pub broadcast proof fn lemma_discarded_agrees<L: SubLowering, H: SubLowering>(
    l: L,
    h: H,
    n: nat,
    scrutinee: Node,
    scope: Scope<'_>,
    at: SlotsView,
)
    requires
        #[trigger] agree(l, h, n),
        alike(l, h),
        nests(n, *scrutinee.expr),
    ensures
        #[trigger] discarded(l, scrutinee, scope, at) == #[trigger] discarded(
            h,
            scrutinee,
            scope,
            at,
        ),
{
}

/// [`probed`] asks for nothing but its parts.
pub broadcast proof fn lemma_probed_agrees<L: SubLowering, H: SubLowering>(
    l: L,
    h: H,
    n: nat,
    node: Node,
    scope: Scope<'_>,
    at: SlotsView,
)
    requires
        #[trigger] agree(l, h, n),
        alike(l, h),
        nests(n, *node.expr),
    ensures
        #[trigger] probed(l, node, scope, at) == #[trigger] probed(h, node, scope, at),
{
}

/// [`static_match`] asks for nothing but its parts.
pub broadcast proof fn lemma_static_match_agrees<L: RecordLowering, H: RecordLowering>(
    l: L,
    h: H,
    n: nat,
    brand: Option<Seq<char>>,
    scrutinee: Node,
    arms: Seq<(Node, Node)>,
    builtins: Seq<String>,
    range: TokenRange,
    scope: Scope<'_>,
    at: SlotsView,
)
    requires
        #[trigger] agree(l, h, n),
        alike_records(l, h),
        nests(n, *scrutinee.expr),
        arms_nest(n, arms),
    ensures
        #[trigger] static_match(
            l,
            brand,
            scrutinee,
            arms,
            builtins,
            range,
            scope,
            at,
        ) == #[trigger] static_match(
            h,
            brand,
            scrutinee,
            arms,
            builtins,
            range,
            scope,
            at,
        ),
{
    broadcast use {lemma_discarded_agrees, lemma_probed_agrees};

    if let Ok(probe) = probed(l, scrutinee, scope, at) {
        if let Ok(Some(i)) = selection(probe.ty->0, brand, arms, builtins, 0) {
            law_first_matching_arm_wins(probe.ty->0, brand, arms, builtins, i);
            assert(nests(n, *arms[i].1.expr));
        }
    }
}

/// [`match_lowered`] asks for nothing but its parts.
pub broadcast proof fn lemma_match_lowered_agrees<L: RecordLowering, H: RecordLowering>(
    l: L,
    h: H,
    n: nat,
    frame: Frame<'_>,
    scrutinee: Node,
    arms: Seq<(Node, Node)>,
    builtins: Seq<String>,
    range: TokenRange,
    scope: Scope<'_>,
    at: SlotsView,
)
    requires
        #[trigger] agree(l, h, n),
        alike_records(l, h),
        nests(n, *scrutinee.expr),
        arms_nest(n, arms),
    ensures
        #[trigger] match_lowered(
            l,
            frame,
            scrutinee,
            arms,
            builtins,
            range,
            scope,
            at,
        ) == #[trigger] match_lowered(
            h,
            frame,
            scrutinee,
            arms,
            builtins,
            range,
            scope,
            at,
        ),
{
    broadcast use {lemma_runtime_match_agrees, lemma_static_match_agrees};
}

} // verus!

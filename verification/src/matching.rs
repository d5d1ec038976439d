//! Lowering of `match`: dispatch on the tag of a variant at run time, or on
//! the static type of the value.

use vstd::prelude::*;

use crate::arms::{
    arm_decision, binding_field, brand_view, enum_like_tags, enum_pattern_binding_field_name,
    enum_pattern_variant, enum_payload_field_type, enum_scrutinee_binding, pattern_bindings,
    pattern_variant, payload_field_type, scrutinee_type, static_arm_decision, variant_tags,
    StaticArmDecision,
};
use crate::ast::{expr_kind, expr_kind_name, Expr, Node, PatternBinding, TokenRange};
use crate::error::{unsupported, ErrorView, LoweringError};
use crate::fragment::{
    emit_get, emit_set, let_get, let_set, outcome, valued, EnumVariantNarrowing, Fragment,
    FragmentView, LetBinding, Scope, Slots, SlotsView, SubLowering,
};
use crate::ir::{
    emit, emit_all, emit_simple, ops_view, sop, IrType, Op, OpView, SimpleOp, TaggedOp,
    TaggedOpView, TrapKind,
};
use crate::materialize::probe_expr_ir_ty;
use crate::names::{among, is_among};
use crate::records::RecordLowering;
use crate::reference::{
    appended, lower_payload_field, payload_read, receiver_brand, resolve_receiver_schema_brand,
    Frame,
};
use crate::text::{join3, quoted, quoted_text};
use crate::types::TypeRepr;

verus! {

// ---------------------------------------------------------------------------
// Instructions of the dispatch.
// ---------------------------------------------------------------------------

/// A lowered arm; a wildcard has no tag.
pub struct RuntimeEnumMatchArm {
    pub tag: Option<u8>,
    pub body_ops: Vec<TaggedOp>,
    pub body_ty: IrType,
    pub range: TokenRange,
}

/// The mathematical value of a [`RuntimeEnumMatchArm`].
pub ghost struct ArmView {
    pub tag: Option<u8>,
    pub ops: Seq<TaggedOpView>,
    pub ty: IrType,
    pub range: TokenRange,
}

impl View for RuntimeEnumMatchArm {
    type V = ArmView;

    open spec fn view(&self) -> ArmView {
        ArmView {
            tag: self.tag,
            ops: ops_view(self.body_ops@),
            ty: self.body_ty,
            range: self.range,
        }
    }
}

/// The mathematical value of lowered arms.
pub open spec fn arms_view(arms: Seq<RuntimeEnumMatchArm>) -> Seq<ArmView> {
    Seq::new(arms.len(), |i: int| arms[i]@)
}

/// The test of the tag behind a variant pointer.
pub open spec fn tag_test(scrutinee: u32, tag: u8, range: TokenRange) -> Seq<TaggedOpView> {
    seq![
        let_get(scrutinee, IrType::I32, range),
        sop(SimpleOp::LoadI8UAtAbsolute { offset: 0 }, range),
        sop(SimpleOp::ConstI32(tag as i32), range),
        sop(SimpleOp::Eq(IrType::I32), range),
    ]
}

/// Executable form of [`tag_test`].
pub fn enum_tag_test_ops(scrutinee_let_idx: u32, tag: u8, range: TokenRange) -> (r: Vec<TaggedOp>)
    ensures
        ops_view(r@) == tag_test(scrutinee_let_idx, tag, range),
{
    let mut out: Vec<TaggedOp> = Vec::new();
    emit_get(&mut out, scrutinee_let_idx, IrType::I32, range);
    emit_simple(&mut out, SimpleOp::LoadI8UAtAbsolute { offset: 0 }, range);
    emit_simple(&mut out, SimpleOp::ConstI32(tag as i32), range);
    emit_simple(&mut out, SimpleOp::Eq(IrType::I32), range);
    assert(ops_view(out@) =~= tag_test(scrutinee_let_idx, tag, range));
    out
}

/// The chain of tests: each arm in turn, the last one without a test. An arm
/// without a tag ends the chain.
pub open spec fn dispatch(
    arms: Seq<ArmView>,
    scrutinee: u32,
    result_ty: IrType,
    range: TokenRange,
) -> Seq<TaggedOpView>
    decreases arms.len(),
{
    if arms.len() <= 1 {
        arms[0].ops
    } else {
        match arms[0].tag {
            None => arms[0].ops,
            Some(tag) => tag_test(scrutinee, tag, arms[0].range).push(
                TaggedOpView {
                    op: OpView::If {
                        result_ty,
                        then_body: arms[0].ops,
                        else_body: dispatch(arms.drop_first(), scrutinee, result_ty, range),
                    },
                    range,
                },
            ),
        }
    }
}

/// Builds the chain of tests.
pub fn runtime_enum_match_chain(
    arms: Vec<RuntimeEnumMatchArm>,
    scrutinee_let_idx: u32,
    result_ty: IrType,
    range: TokenRange,
) -> (r: Vec<TaggedOp>)
    requires
        arms@.len() > 0,
    ensures
        ops_view(r@) == dispatch(arms_view(arms@), scrutinee_let_idx, result_ty, range),
{
    let ghost all = arms_view(arms@);
    let mut rest: Vec<RuntimeEnumMatchArm> = arms;
    let last: RuntimeEnumMatchArm = match rest.pop() {
        Some(a) => a,
        None => {
            return Vec::new();
        },
    };
    let mut else_body: Vec<TaggedOp> = last.body_ops;
    assert(all.skip(all.len() - 1)[0] == last@);
    while rest.len() > 0
        invariant
            rest@.len() < all.len(),
            arms_view(rest@) == all.take(rest@.len() as int),
            ops_view(else_body@) == dispatch(
                all.skip(rest@.len() as int),
                scrutinee_let_idx,
                result_ty,
                range,
            ),
        ensures
            rest@.len() == 0,
        decreases rest@.len(),
    {
        let ghost n = rest@.len() as int;
        let ghost before = rest@;
        let arm: RuntimeEnumMatchArm = match rest.pop() {
            Some(a) => a,
            None => {
                break;
            },
        };
        proof {
            assert(arms_view(before)[n - 1] == all.take(n)[n - 1]);
            assert(arm@ == all[n - 1]);
            assert(arms_view(rest@) =~= all.take(n - 1)) by {
                assert forall|k: int| 0 <= k < n - 1 implies arms_view(rest@)[k] == all.take(
                    n - 1,
                )[k] by {
                    assert(arms_view(before)[k] == all.take(n)[k]);
                }
            }
            assert(all.skip(n - 1)[0] == all[n - 1]);
            assert(all.skip(n - 1).drop_first() =~= all.skip(n));
        }
        let RuntimeEnumMatchArm { tag, body_ops, range: at, .. } = arm;
        match tag {
            None => {
                else_body = body_ops;
            },
            Some(tag) => {
                let mut test: Vec<TaggedOp> = enum_tag_test_ops(scrutinee_let_idx, tag, at);
                let op = Op::If { result_ty, then_body: body_ops, else_body };
                emit(&mut test, op, range);
                else_body = test;
            },
        }
    }
    assert(all.skip(0) =~= all);
    else_body
}

/// The instructions behind a trap that stand for a value of the given type,
/// and the state after them; a type without a placeholder has none.
pub open spec fn trap_body(result_ty: IrType, range: TokenRange, at: SlotsView) -> Option<(
    Seq<TaggedOpView>,
    SlotsView,
)> {
    let trap = sop(SimpleOp::Trap { kind: TrapKind::NoMatch }, range);
    match result_ty {
        IrType::I64 => Some((seq![trap, sop(SimpleOp::ConstI64(0), range)], at)),
        IrType::I32 => Some((seq![trap, sop(SimpleOp::ConstI32(0), range)], at)),
        IrType::F64 => Some((seq![trap, sop(SimpleOp::ConstF64(0), range)], at)),
        IrType::Bool => Some((seq![trap, sop(SimpleOp::ConstBool(false), range)], at)),
        IrType::String => Some(
            (
                seq![
                    trap,
                    TaggedOpView {
                        op: OpView::ConstString {
                            idx: at.string_number(Seq::empty()),
                            value: Seq::empty(),
                        },
                        range,
                    },
                ],
                at.after_string(Seq::empty()),
            ),
        ),
        _ => None,
    }
}

/// Builds the body of the arm for what no pattern covers.
pub fn no_match_trap_body_ops(result_ty: IrType, range: TokenRange, at: &Slots) -> (r: Option<
    (Vec<TaggedOp>, Slots),
>)
    ensures
        match r {
            Some((ops, next)) => trap_body(result_ty, range, at@) == Some(
                (ops_view(ops@), next@),
            ),
            None => trap_body(result_ty, range, at@) is None,
        },
{
    let mut next: Slots = at.copy();
    let mut out: Vec<TaggedOp> = Vec::new();
    emit_simple(&mut out, SimpleOp::Trap { kind: TrapKind::NoMatch }, range);
    match result_ty {
        IrType::I64 => emit_simple(&mut out, SimpleOp::ConstI64(0), range),
        IrType::I32 => emit_simple(&mut out, SimpleOp::ConstI32(0), range),
        IrType::F64 => emit_simple(&mut out, SimpleOp::ConstF64(0), range),
        IrType::Bool => emit_simple(&mut out, SimpleOp::ConstBool(false), range),
        IrType::String => {
            let empty: String = String::new();
            assert(empty@ =~= Seq::<char>::empty());
            let (idx, after) = at.intern(empty.as_str());
            next = after;
            emit(&mut out, Op::ConstString { idx, value: empty }, range);
        },
        _ => {
            return None;
        },
    }
    proof {
        match trap_body(result_ty, range, at@) {
            Some((ops, _)) => {
                assert(ops_view(out@) =~= ops);
            },
            None => {},
        }
    }
    Some((out, next))
}

// ---------------------------------------------------------------------------
// Arms with a known variant.
// ---------------------------------------------------------------------------

/// The record name of a type.
pub open spec fn type_brand(ty: TypeRepr) -> Option<String> {
    match ty {
        TypeRepr::Schema { schema } => Some(schema.name),
        _ => None,
    }
}

/// The binding of a payload field.
pub open spec fn payload_binding<'a>(
    name: String,
    idx: u32,
    ty: IrType,
    repr: &'a TypeRepr,
) -> LetBinding<
    'a,
> {
    LetBinding {
        name,
        idx,
        ty,
        schema_brand: type_brand(*repr),
        type_repr: Some(repr),
        closure: None,
        constant: None,
    }
}

fn bind_payload<'a>(
    name: &String,
    idx: u32,
    ty: IrType,
    repr: &'a TypeRepr,
    scope: &'a Scope<'a>,
) -> (r: Scope<'a>)
    ensures
        r == Scope::Bind(payload_binding(*name, idx, ty, repr), scope),
{
    let schema_brand: Option<String> = match repr {
        TypeRepr::Schema { schema } => Some(schema.name.clone()),
        _ => None,
    };
    Scope::Bind(
        LetBinding {
            name: name.clone(),
            idx,
            ty,
            schema_brand,
            type_repr: Some(repr),
            closure: None,
            constant: None,
        },
        scope,
    )
}

/// The body of an arm behind the payload bindings of its pattern from `from`
/// on; `seen` are the names bound before.
pub open spec fn bound_body<L: RecordLowering>(
    low: L,
    scrutinee: u32,
    n: EnumVariantNarrowing<'_>,
    bindings: Seq<PatternBinding>,
    from: int,
    seen: Seq<String>,
    body: Node,
    range: TokenRange,
    scope: Scope<'_>,
    at: SlotsView,
) -> Result<FragmentView, ErrorView>
    decreases bindings.len() - from,
{
    if from < 0 || from >= bindings.len() {
        low.lowered(body, scope, at)
    } else {
        match bindings[from].binding {
            None => bound_body(
                low,
                scrutinee,
                n,
                bindings,
                from + 1,
                seen,
                body,
                range,
                scope,
                at,
            ),
            Some(name) => if among(seen, name@) {
                Err(
                    ErrorView::UnsupportedExpr {
                        kind: "duplicate enum pattern binding `"@ + name@ + "`"@,
                        range,
                    },
                )
            } else {
                let field = binding_field(n, bindings[from], from as nat);
                match payload_field_type(n, field, range) {
                    Err(e) => Err(e),
                    Ok(repr) => match payload_read(low, field, n, IrType::I32, range, at) {
                        Err(e) => Err(e),
                        Ok(f) => appended(
                            (seq![let_get(scrutinee, IrType::I32, range)] + f.ops).push(
                                let_set(f.slots.lets, f.ty->0, range),
                            ),
                            bound_body(
                                low,
                                scrutinee,
                                n,
                                bindings,
                                from + 1,
                                seen.push(name),
                                body,
                                range,
                                Scope::Bind(
                                    payload_binding(name, f.slots.lets, f.ty->0, repr),
                                    &scope,
                                ),
                                f.slots.after(1),
                            ),
                        ),
                    },
                }
            },
        }
    }
}

/// Lowers the payload bindings of a pattern and the body behind them.
pub fn emit_enum_pattern_bindings<L: RecordLowering>(
    scrutinee_let_idx: u32,
    narrowing: EnumVariantNarrowing<'_>,
    bindings: &Vec<PatternBinding>,
    from: usize,
    seen: Vec<String>,
    body: &Node,
    range: TokenRange,
    scope: &Scope<'_>,
    at: &Slots,
    low: &L,
) -> (r: Result<Fragment, LoweringError>)
    requires
        from <= bindings@.len(),
    ensures
        outcome(r) == bound_body(
            *low,
            scrutinee_let_idx,
            narrowing,
            bindings@,
            from as int,
            seen@,
            *body,
            range,
            *scope,
            at@,
        ),
    decreases bindings@.len() - from,
{
    if from >= bindings.len() {
        return low.lower_node(body, scope, at);
    }
    let name: &String = match &bindings[from].binding {
        None => {
            return emit_enum_pattern_bindings(
                scrutinee_let_idx,
                narrowing,
                bindings,
                from + 1,
                seen,
                body,
                range,
                scope,
                at,
                low,
            );
        },
        Some(n) => n,
    };
    if is_among(&seen, name.as_str()) {
        return Err(
            LoweringError::UnsupportedExpr {
                kind: join3("duplicate enum pattern binding `", name.as_str(), "`"),
                range,
            },
        );
    }
    let field: String = enum_pattern_binding_field_name(&narrowing, &bindings[from], from);
    let repr: &TypeRepr = match enum_payload_field_type(&narrowing, &field, range) {
        Err(e) => {
            return Err(e);
        },
        Ok(t) => t,
    };
    let read: Fragment = match lower_payload_field(
        field.as_str(),
        &narrowing,
        IrType::I32,
        range,
        at,
        low,
    ) {
        Err(e) => {
            return Err(e);
        },
        Ok(f) => f,
    };
    let ty: IrType = match read.ty {
        Some(t) => t,
        None => {
            assert(false);
            IrType::I32
        },
    };
    let Fragment { ops, slots, .. } = read;
    let mut out: Vec<TaggedOp> = Vec::new();
    emit_get(&mut out, scrutinee_let_idx, IrType::I32, range);
    assert(ops_view(out@) =~= seq![let_get(scrutinee_let_idx, IrType::I32, range)]);
    emit_all(&mut out, ops);
    let idx: u32 = slots.lets;
    emit_set(&mut out, idx, ty, range);
    let inner = bind_payload(name, idx, ty, repr, scope);
    let mut bound: Vec<String> = seen;
    bound.push(name.clone());
    match emit_enum_pattern_bindings(
        scrutinee_let_idx,
        narrowing,
        bindings,
        from + 1,
        bound,
        body,
        range,
        &inner,
        &slots.reserve(1),
        low,
    ) {
        Err(e) => Err(e),
        Ok(rest) => {
            let Fragment { ops: more, ty: last, slots: behind } = rest;
            emit_all(&mut out, more);
            Ok(Fragment { ops: out, ty: last, slots: behind })
        },
    }
}

/// The body of an arm, which must leave a value.
pub open spec fn arm_branch<L: RecordLowering>(
    low: L,
    body: Node,
    range: TokenRange,
    name: String,
    scrutinee: u32,
    narrowing: Option<EnumVariantNarrowing<'_>>,
    bindings: Seq<PatternBinding>,
    scope: Scope<'_>,
    at: SlotsView,
) -> Result<FragmentView, ErrorView> {
    valued(
        match narrowing {
            Some(n) => bound_body(
                low,
                scrutinee,
                n,
                bindings,
                0,
                Seq::empty(),
                body,
                range,
                Scope::Narrow(&name, n, &scope),
                at,
            ),
            None => low.lowered(body, scope, at),
        },
        "Match(branch-stack=0)"@,
        range,
    )
}

/// Lowers the body of an arm.
pub fn lower_branch_with_enum_narrowing<L: RecordLowering>(
    node: &Node,
    range: TokenRange,
    scrutinee_name: &String,
    scrutinee_let_idx: u32,
    narrowing: Option<EnumVariantNarrowing<'_>>,
    pattern_bindings: Option<&Vec<PatternBinding>>,
    scope: &Scope<'_>,
    at: &Slots,
    low: &L,
) -> (r: Result<(Fragment, IrType), LoweringError>)
    ensures
        ({
            let spec = arm_branch(
                *low,
                *node,
                range,
                *scrutinee_name,
                scrutinee_let_idx,
                narrowing,
                match pattern_bindings {
                    Some(b) => b@,
                    None => Seq::empty(),
                },
                *scope,
                at@,
            );
            match r {
                Ok(v) => spec == Ok::<FragmentView, ErrorView>(v.0@) && v.0.ty == Some(v.1),
                Err(e) => spec == Err::<FragmentView, ErrorView>(e@),
            }
        }),
{
    let lowered = match narrowing {
        None => low.lower_node(node, scope, at),
        Some(n) => {
            let inner = Scope::Narrow(scrutinee_name, n, scope);
            let none: Vec<PatternBinding> = Vec::new();
            assert(none@ =~= Seq::empty());
            let bindings: &Vec<PatternBinding> = match pattern_bindings {
                Some(b) => b,
                None => &none,
            };
            let seen: Vec<String> = Vec::new();
            assert(seen@ =~= Seq::empty());
            emit_enum_pattern_bindings(
                scrutinee_let_idx,
                n,
                bindings,
                0,
                seen,
                node,
                range,
                &inner,
                at,
                low,
            )
        },
    };
    match lowered {
        Err(e) => Err(e),
        Ok(f) => match f.ty {
            Some(ty) => Ok((f, ty)),
            None => Err(unsupported("Match(branch-stack=0)", range)),
        },
    }
}

// ---------------------------------------------------------------------------
// Dispatch at run time.
// ---------------------------------------------------------------------------

/// What has been lowered of a match.
pub ghost struct MatchState {
    pub arms: Seq<ArmView>,
    pub covered: Seq<u8>,
    pub wildcard: bool,
    pub slots: SlotsView,
}

/// The error for a pattern that does not fit the dispatch.
pub open spec fn bad_pattern(kind: Seq<char>, why: Seq<char>, range: TokenRange) -> ErrorView {
    ErrorView::UnsupportedExpr { kind: "Match(enum pattern `"@ + kind + why, range }
}

fn pattern_error(pattern: &Expr, why: &str, range: TokenRange) -> (e: LoweringError)
    ensures
        e@ == bad_pattern(expr_kind(*pattern), why@, range),
{
    LoweringError::UnsupportedExpr {
        kind: join3("Match(enum pattern `", expr_kind_name(pattern), why),
        range,
    }
}

/// The state after one more arm.
pub open spec fn with_arm(
    state: MatchState,
    tag: Option<u8>,
    body: FragmentView,
    range: TokenRange,
) -> MatchState {
    MatchState {
        arms: state.arms.push(ArmView { tag, ops: body.ops, ty: body.ty->0, range }),
        covered: match tag {
            Some(t) => state.covered.push(t),
            None => state.covered,
        },
        wildcard: tag is None,
        slots: body.slots,
    }
}

/// The state after the arms at and behind `from`; a wildcard ends them.
pub open spec fn arms_from<L: RecordLowering>(
    low: L,
    ty: &TypeRepr,
    name: String,
    arms: Seq<(Node, Node)>,
    scrutinee: u32,
    range: TokenRange,
    scope: Scope<'_>,
    state: MatchState,
    from: int,
) -> Result<MatchState, ErrorView>
    decreases arms.len() - from,
{
    if from < 0 || from >= arms.len() {
        Ok(state)
    } else {
        let pattern = arms[from].0;
        let body = arms[from].1;
        match *pattern.expr {
            Expr::Wildcard => match arm_branch(
                low,
                body,
                range,
                name,
                scrutinee,
                None,
                Seq::empty(),
                scope,
                state.slots,
            ) {
                Err(e) => Err(e),
                Ok(f) => Ok(with_arm(state, None, f, pattern.range)),
            },
            Expr::Type(_) | Expr::VariantPattern { .. } => match pattern_variant(
                ty,
                *pattern.expr,
            ) {
                None => Err(
                    bad_pattern(
                        expr_kind(*pattern.expr),
                        "` is not a variant of the scrutinee enum)"@,
                        pattern.range,
                    ),
                ),
                Some(n) => match arm_branch(
                    low,
                    body,
                    range,
                    name,
                    scrutinee,
                    Some(n),
                    pattern_bindings(*pattern.expr),
                    scope,
                    state.slots,
                ) {
                    Err(e) => Err(e),
                    Ok(f) => arms_from(
                        low,
                        ty,
                        name,
                        arms,
                        scrutinee,
                        range,
                        scope,
                        with_arm(state, Some(n.tag), f, pattern.range),
                        from + 1,
                    ),
                },
            },
            other => Err(
                bad_pattern(
                    expr_kind(other),
                    "` is not supported by compiled runtime dispatch)"@,
                    pattern.range,
                ),
            ),
        }
    }
}

/// The first arm at or behind `from` whose body is of another type.
pub open spec fn odd_arm(arms: Seq<ArmView>, ty: IrType, from: int) -> Option<int>
    decreases arms.len() - from,
{
    if from < 0 || from >= arms.len() {
        None
    } else if arms[from].ty != ty {
        Some(from)
    } else {
        odd_arm(arms, ty, from + 1)
    }
}

/// Every tag of the type is covered.
pub open spec fn covers_all(ty: TypeRepr, covered: Seq<u8>) -> bool {
    match variant_tags(ty) {
        Some(tags) => forall|i: int| 0 <= i < tags.len() ==> covered.contains(#[trigger] tags[i]),
        None => true,
    }
}

fn is_covered(ty: &TypeRepr, covered: &Vec<u8>) -> (r: bool)
    ensures
        r == covers_all(*ty, covered@),
{
    match enum_like_tags(ty) {
        None => true,
        Some(tags) => {
            let mut i: usize = 0;
            while i < tags.len()
                invariant
                    i <= tags@.len(),
                    forall|k: int| 0 <= k < i ==> covered@.contains(#[trigger] tags@[k]),
                    variant_tags(*ty) == Some(tags@),
                decreases tags@.len() - i,
            {
                let t: u8 = tags[i];
                let mut found: bool = false;
                let mut k: usize = 0;
                while k < covered.len()
                    invariant
                        k <= covered@.len(),
                        found == exists|m: int| 0 <= m < k && covered@[m] == t,
                    decreases covered@.len() - k,
                {
                    if covered[k] == t {
                        found = true;
                    }
                    k += 1;
                }
                if !found {
                    proof {
                        let all = variant_tags(*ty)->0;
                        assert(!covered@.contains(all[i as int]));
                    }
                    return false;
                }
                i += 1;
            }
            true
        },
    }
}

/// The arms with the one for what no pattern covers, and the state behind it.
pub open spec fn closed_arms(ty: TypeRepr, state: MatchState, range: TokenRange) -> Result<
    (Seq<ArmView>, SlotsView),
    ErrorView,
> {
    let result_ty = state.arms[0].ty;
    if state.wildcard || covers_all(ty, state.covered) {
        Ok((state.arms, state.slots))
    } else {
        match trap_body(result_ty, range, state.slots) {
            Some((ops, more)) => Ok(
                (state.arms.push(ArmView { tag: None, ops, ty: result_ty, range }), more),
            ),
            None => Err(
                ErrorView::UnsupportedExpr {
                    kind: "Match(non-exhaustive enum, no-match trap placeholder unavailable for result type "@
                        + result_ty.tag() + ")"@,
                    range,
                },
            ),
        }
    }
}

/// The whole dispatch behind the arms.
pub open spec fn finished<L: RecordLowering>(
    low: L,
    scrutinee: Node,
    ty: TypeRepr,
    state: MatchState,
    slot: u32,
    range: TokenRange,
    scope: Scope<'_>,
) -> Result<FragmentView, ErrorView> {
    if state.arms.len() == 0 {
        Err(ErrorView::UnsupportedExpr { kind: "Match(enum with no lowerable arms)"@, range })
    } else {
        let result_ty = state.arms[0].ty;
        match odd_arm(state.arms, result_ty, 1) {
            Some(i) => Err(
                ErrorView::IfBranchTypeMismatch {
                    then_ty: result_ty,
                    else_ty: state.arms[i].ty,
                    range,
                },
            ),
            None => match closed_arms(ty, state, range) {
                Err(e) => Err(e),
                Ok((arms, at)) => dispatched(
                    low,
                    scrutinee,
                    arms,
                    slot,
                    result_ty,
                    range,
                    scope,
                    at,
                ),
            },
        }
    }
}

/// The value matched on, in its slot, and the chain of tests.
pub open spec fn dispatched<L: RecordLowering>(
    low: L,
    scrutinee: Node,
    arms: Seq<ArmView>,
    slot: u32,
    result_ty: IrType,
    range: TokenRange,
    scope: Scope<'_>,
    at: SlotsView,
) -> Result<FragmentView, ErrorView> {
    match valued(
        low.lowered(scrutinee, scope, at),
        "Match(enum scrutinee produced no value)"@,
        scrutinee.range,
    ) {
        Err(e) => Err(e),
        Ok(f) => if f.ty->0 != IrType::I32 {
            Err(
                ErrorView::UnsupportedExpr {
                    kind: "Match(enum scrutinee lowered to "@ + f.ty->0.tag()
                        + ", expected I32 pointer)"@,
                    range: scrutinee.range,
                },
            )
        } else {
            Ok(
                FragmentView {
                    ops: f.ops.push(let_set(slot, IrType::I32, scrutinee.range)) + dispatch(
                        arms,
                        slot,
                        result_ty,
                        range,
                    ),
                    ty: Some(result_ty),
                    slots: f.slots,
                },
            )
        },
    }
}

/// The lowering of a match over a variable with variants, if it is one.
pub open spec fn runtime_match<L: RecordLowering>(
    low: L,
    frame: Frame<'_>,
    scrutinee: Node,
    arms: Seq<(Node, Node)>,
    range: TokenRange,
    scope: Scope<'_>,
    at: SlotsView,
) -> Option<Result<FragmentView, ErrorView>> {
    match scrutinee_type(scrutinee, frame.params@, scope) {
        None => None,
        Some((name, ty)) => if arms.len() == 0 {
            Some(Err(ErrorView::UnsupportedExpr { kind: "Match(enum with no arms)"@, range }))
        } else {
            let slot = at.lets;
            match arms_from(
                low,
                &ty,
                name,
                arms,
                slot,
                range,
                scope,
                MatchState {
                    arms: Seq::empty(),
                    covered: Seq::empty(),
                    wildcard: false,
                    slots: at.after(1),
                },
                0,
            ) {
                Err(e) => Some(Err(e)),
                Ok(state) => Some(finished(low, scrutinee, ty, state, slot, range, scope)),
            }
        },
    }
}

/// The arms of a match, lowered.
struct LoweredArms {
    arms: Vec<RuntimeEnumMatchArm>,
    covered: Vec<u8>,
    wildcard: bool,
    slots: Slots,
}

impl LoweredArms {
    spec fn state(self) -> MatchState {
        MatchState {
            arms: arms_view(self.arms@),
            covered: self.covered@,
            wildcard: self.wildcard,
            slots: self.slots@,
        }
    }
}

fn push_arm(lowered: &mut LoweredArms, tag: Option<u8>, f: Fragment, ty: IrType, range: TokenRange)
    requires
        f.ty == Some(ty),
    ensures
        final(lowered).state() == with_arm(old(lowered).state(), tag, f@, range),
{
    let Fragment { ops, slots, .. } = f;
    lowered.arms.push(RuntimeEnumMatchArm { tag, body_ops: ops, body_ty: ty, range });
    match tag {
        Some(t) => lowered.covered.push(t),
        None => {},
    }
    lowered.wildcard = tag.is_none();
    lowered.slots = slots;
    proof {
        let want = with_arm(old(lowered).state(), tag, f@, range);
        assert(arms_view(lowered.arms@) =~= want.arms);
    }
}

fn lower_arms<L: RecordLowering>(
    enum_ty: &TypeRepr,
    name: &String,
    arms: &Vec<(Node, Node)>,
    scrutinee_let_idx: u32,
    range: TokenRange,
    scope: &Scope<'_>,
    at: &Slots,
    low: &L,
) -> (r: Result<LoweredArms, LoweringError>)
    ensures
        ({
            let spec = arms_from(
                *low,
                enum_ty,
                *name,
                arms@,
                scrutinee_let_idx,
                range,
                *scope,
                MatchState {
                    arms: Seq::empty(),
                    covered: Seq::empty(),
                    wildcard: false,
                    slots: at@,
                },
                0,
            );
            match r {
                Ok(l) => spec == Ok::<MatchState, ErrorView>(l.state()),
                Err(e) => spec == Err::<MatchState, ErrorView>(e@),
            }
        }),
{
    let mut lowered = LoweredArms {
        arms: Vec::new(),
        covered: Vec::new(),
        wildcard: false,
        slots: at.copy(),
    };
    let ghost start = MatchState {
        arms: Seq::empty(),
        covered: Seq::empty(),
        wildcard: false,
        slots: at@,
    };
    assert(arms_view(lowered.arms@) =~= Seq::empty());
    assert(lowered.covered@ =~= Seq::empty());
    let ghost whole = arms_from(
        *low,
        enum_ty,
        *name,
        arms@,
        scrutinee_let_idx,
        range,
        *scope,
        start,
        0,
    );
    let mut i: usize = 0;
    while i < arms.len()
        invariant
            i <= arms@.len(),
            start == (MatchState {
                arms: Seq::empty(),
                covered: Seq::empty(),
                wildcard: false,
                slots: at@,
            }),
            whole == arms_from(
                *low,
                enum_ty,
                *name,
                arms@,
                scrutinee_let_idx,
                range,
                *scope,
                start,
                0,
            ),
            whole == arms_from(
                *low,
                enum_ty,
                *name,
                arms@,
                scrutinee_let_idx,
                range,
                *scope,
                lowered.state(),
                i as int,
            ),
        decreases arms@.len() - i,
    {
        let pattern: &Node = &arms[i].0;
        let body: &Node = &arms[i].1;
        match &*pattern.expr {
            Expr::Wildcard => match lower_branch_with_enum_narrowing(
                body,
                range,
                name,
                scrutinee_let_idx,
                None,
                None,
                scope,
                &lowered.slots,
                low,
            ) {
                Err(e) => {
                    return Err(e);
                },
                Ok((f, ty)) => {
                    push_arm(&mut lowered, None, f, ty, pattern.range);
                    return Ok(lowered);
                },
            },
            Expr::Type(_) | Expr::VariantPattern { .. } => match enum_pattern_variant(
                enum_ty,
                &*pattern.expr,
            ) {
                None => {
                    return Err(
                        pattern_error(
                            &*pattern.expr,
                            "` is not a variant of the scrutinee enum)",
                            pattern.range,
                        ),
                    );
                },
                Some((n, bindings)) => match lower_branch_with_enum_narrowing(
                    body,
                    range,
                    name,
                    scrutinee_let_idx,
                    Some(n),
                    bindings,
                    scope,
                    &lowered.slots,
                    low,
                ) {
                    Err(e) => {
                        return Err(e);
                    },
                    Ok((f, ty)) => {
                        push_arm(&mut lowered, Some(n.tag), f, ty, pattern.range);
                    },
                },
            },
            other => {
                return Err(
                    pattern_error(
                        other,
                        "` is not supported by compiled runtime dispatch)",
                        pattern.range,
                    ),
                );
            },
        }
        i += 1;
    }
    Ok(lowered)
}

fn find_odd_arm(arms: &Vec<RuntimeEnumMatchArm>, ty: IrType) -> (r: Option<usize>)
    ensures
        match r {
            Some(i) => i < arms@.len() && odd_arm(arms_view(arms@), ty, 1) == Some(i as int),
            None => odd_arm(arms_view(arms@), ty, 1) is None,
        },
{
    let mut i: usize = 1;
    while i < arms.len()
        invariant
            1 <= i,
            odd_arm(arms_view(arms@), ty, 1) == odd_arm(arms_view(arms@), ty, i as int),
        decreases arms@.len() - i,
    {
        assert(arms_view(arms@)[i as int] == arms@[i as int]@);
        if arms[i].body_ty != ty {
            return Some(i);
        }
        i += 1;
    }
    None
}

fn finish_match<L: RecordLowering>(
    scrutinee: &Node,
    enum_ty: &TypeRepr,
    lowered: LoweredArms,
    scrutinee_let_idx: u32,
    range: TokenRange,
    scope: &Scope<'_>,
    low: &L,
) -> (r: Result<Fragment, LoweringError>)
    ensures
        outcome(r) == finished(
            *low,
            *scrutinee,
            *enum_ty,
            lowered.state(),
            scrutinee_let_idx,
            range,
            *scope,
        ),
{
    let ghost state = lowered.state();
    let LoweredArms { arms, covered, wildcard, slots } = lowered;
    let mut at: Slots = slots;
    assert(state.arms.len() == arms@.len());
    if arms.len() == 0 {
        return Err(unsupported("Match(enum with no lowerable arms)", range));
    }
    assert(state.arms[0] == arms@[0]@);
    let result_ty: IrType = arms[0].body_ty;
    match find_odd_arm(&arms, result_ty) {
        Some(i) => {
            assert(state.arms[i as int] == arms@[i as int]@);
            return Err(
                LoweringError::IfBranchTypeMismatch {
                    then_ty: result_ty,
                    else_ty: arms[i].body_ty,
                    range,
                },
            );
        },
        None => {},
    }
    let mut all: Vec<RuntimeEnumMatchArm> = arms;
    if !wildcard && !is_covered(enum_ty, &covered) {
        match no_match_trap_body_ops(result_ty, range, &at) {
            None => {
                return Err(
                    LoweringError::UnsupportedExpr {
                        kind: join3(
                            "Match(non-exhaustive enum, no-match trap placeholder unavailable for result type ",
                            result_ty.name(),
                            ")",
                        ),
                        range,
                    },
                );
            },
            Some((ops, next)) => {
                at = next;
                all.push(
                    RuntimeEnumMatchArm { tag: None, body_ops: ops, body_ty: result_ty, range },
                );
                assert(arms_view(all@) =~= state.arms.push(
                    ArmView { tag: None, ops: ops_view(ops@), ty: result_ty, range },
                ));
            },
        }
    }
    let f: Fragment = match low.lower_node(scrutinee, scope, &at) {
        Err(e) => {
            return Err(e);
        },
        Ok(f) => f,
    };
    let ty: IrType = match f.ty {
        None => {
            return Err(unsupported("Match(enum scrutinee produced no value)", scrutinee.range));
        },
        Some(t) => t,
    };
    if ty != IrType::I32 {
        return Err(
            LoweringError::UnsupportedExpr {
                kind: join3(
                    "Match(enum scrutinee lowered to ",
                    ty.name(),
                    ", expected I32 pointer)",
                ),
                range: scrutinee.range,
            },
        );
    }
    let Fragment { ops, slots, .. } = f;
    let mut out: Vec<TaggedOp> = ops;
    emit_set(&mut out, scrutinee_let_idx, IrType::I32, scrutinee.range);
    let chain: Vec<TaggedOp> = runtime_enum_match_chain(
        all,
        scrutinee_let_idx,
        result_ty,
        range,
    );
    emit_all(&mut out, chain);
    Ok(Fragment { ops: out, ty: Some(result_ty), slots })
}

/// Lowers a match over a variable with variants; `None` where it is none.
pub fn try_lower_runtime_enum_match<L: RecordLowering>(
    scrutinee: &Node,
    arms: &Vec<(Node, Node)>,
    range: TokenRange,
    frame: &Frame<'_>,
    scope: &Scope<'_>,
    at: &Slots,
    low: &L,
) -> (r: Option<Result<Fragment, LoweringError>>)
    ensures
        ({
            let spec = runtime_match(*low, *frame, *scrutinee, arms@, range, *scope, at@);
            match r {
                Some(r) => spec == Some(outcome(r)),
                None => spec is None,
            }
        }),
{
    let (name, enum_ty) = match enum_scrutinee_binding(scrutinee, frame.params, scope) {
        None => {
            return None;
        },
        Some(b) => b,
    };
    if arms.len() == 0 {
        return Some(Err(unsupported("Match(enum with no arms)", range)));
    }
    let slot: u32 = at.lets;
    let lowered: LoweredArms = match lower_arms(
        enum_ty,
        name,
        arms,
        slot,
        range,
        scope,
        &at.reserve(1),
        low,
    ) {
        Err(e) => {
            return Some(Err(e));
        },
        Ok(l) => l,
    };
    Some(finish_match(scrutinee, enum_ty, lowered, slot, range, scope, low))
}

// ---------------------------------------------------------------------------
// Selection by the static type.
// ---------------------------------------------------------------------------

/// The first arm at or behind `from` that matches, or the first one before it
/// that the static type does not decide.
pub open spec fn selection(
    ty: IrType,
    brand: Option<Seq<char>>,
    arms: Seq<(Node, Node)>,
    builtins: Seq<String>,
    from: int,
) -> Result<Option<int>, int>
    decreases arms.len() - from,
{
    if from < 0 || from >= arms.len() {
        Ok(None)
    } else {
        match arm_decision(ty, brand, *arms[from].0.expr, builtins) {
            StaticArmDecision::Matches => Ok(Some(from)),
            StaticArmDecision::Never => selection(ty, brand, arms, builtins, from + 1),
            StaticArmDecision::Undecidable => Err(from),
        }
    }
}

fn select_arm(
    ty: IrType,
    brand: Option<&String>,
    arms: &Vec<(Node, Node)>,
    builtins: &Vec<String>,
) -> (r: Result<Option<usize>, usize>)
    ensures
        match r {
            Ok(Some(i)) => i < arms@.len() && selection(
                ty,
                brand_view(brand),
                arms@,
                builtins@,
                0,
            ) == Ok::<Option<int>, int>(Some(i as int)),
            Ok(None) => selection(ty, brand_view(brand), arms@, builtins@, 0) == Ok::<
                Option<int>,
                int,
            >(None),
            Err(i) => i < arms@.len() && selection(
                ty,
                brand_view(brand),
                arms@,
                builtins@,
                0,
            ) == Err::<Option<int>, int>(i as int),
        },
{
    let mut i: usize = 0;
    while i < arms.len()
        invariant
            i <= arms@.len(),
            selection(ty, brand_view(brand), arms@, builtins@, 0) == selection(
                ty,
                brand_view(brand),
                arms@,
                builtins@,
                i as int,
            ),
        decreases arms@.len() - i,
    {
        match static_arm_decision(ty, brand, &*arms[i].0.expr, builtins) {
            StaticArmDecision::Matches => {
                return Ok(Some(i));
            },
            StaticArmDecision::Never => {},
            StaticArmDecision::Undecidable => {
                return Err(i);
            },
        }
        i += 1;
    }
    Ok(None)
}

/// A brand as shown in diagnostics.
pub open spec fn brand_text(brand: Option<Seq<char>>) -> Seq<char> {
    match brand {
        Some(b) => "Some("@ + quoted_text(b) + ")"@,
        None => "None"@,
    }
}

fn show_brand(brand: Option<&String>) -> (r: String)
    ensures
        r@ == brand_text(brand_view(brand)),
{
    match brand {
        Some(b) => join3("Some(", quoted(b.as_str()).as_str(), ")"),
        None => "None".to_owned(),
    }
}

/// The value matched on, put aside.
pub open spec fn discarded<L: SubLowering>(
    low: L,
    scrutinee: Node,
    scope: Scope<'_>,
    at: SlotsView,
) -> Result<
    FragmentView,
    ErrorView,
> {
    match valued(
        low.lowered(scrutinee, scope, at),
        "Match(scrutinee produced no value)"@,
        scrutinee.range,
    ) {
        Err(e) => Err(e),
        Ok(f) => Ok(
            FragmentView {
                ops: f.ops.push(let_set(f.slots.lets, f.ty->0, scrutinee.range)),
                ty: None,
                slots: f.slots.after(1),
            },
        ),
    }
}

fn lower_discarded<L: SubLowering>(scrutinee: &Node, scope: &Scope<'_>, at: &Slots, low: &L) -> (r:
    Result<Fragment, LoweringError>)
    ensures
        outcome(r) == discarded(*low, *scrutinee, *scope, at@),
{
    let f: Fragment = match low.lower_node(scrutinee, scope, at) {
        Err(e) => {
            return Err(e);
        },
        Ok(f) => f,
    };
    let ty: IrType = match f.ty {
        None => {
            return Err(unsupported("Match(scrutinee produced no value)", scrutinee.range));
        },
        Some(t) => t,
    };
    let Fragment { ops, slots, .. } = f;
    let mut out: Vec<TaggedOp> = ops;
    emit_set(&mut out, slots.lets, ty, scrutinee.range);
    Ok(Fragment { ops: out, ty: None, slots: slots.reserve(1) })
}

/// The type probe of a node.
pub open spec fn probed<L: SubLowering>(
    low: L,
    node: Node,
    scope: Scope<'_>,
    at: SlotsView,
) -> Result<
    FragmentView,
    ErrorView,
> {
    valued(
        low.lowered(node, scope, at),
        "List(computed element produced no value during type probe)"@,
        node.range,
    )
}

/// The error for a match in which no arm matches the static type.
pub open spec fn no_arm(ty: IrType, brand: Option<Seq<char>>, range: TokenRange) -> ErrorView {
    ErrorView::UnsupportedExpr {
        kind: "Match(no arm matches scrutinee type "@ + ty.tag() + " brand "@ + brand_text(brand)
            + ")"@,
        range,
    }
}

/// The lowering of a match by the static type of the value: the first arm that
/// matches, or an error where none does.
pub open spec fn static_match<L: RecordLowering>(
    low: L,
    brand: Option<Seq<char>>,
    scrutinee: Node,
    arms: Seq<(Node, Node)>,
    builtins: Seq<String>,
    range: TokenRange,
    scope: Scope<'_>,
    at: SlotsView,
) -> Result<FragmentView, ErrorView> {
    match probed(low, scrutinee, scope, at) {
        Err(e) => Err(e),
        Ok(probe) => match selection(probe.ty->0, brand, arms, builtins, 0) {
            Err(i) => Err(
                ErrorView::UnsupportedExpr {
                    kind: "Match(arm pattern not statically decidable for scrutinee type "@
                        + probe.ty->0.tag() + " brand "@ + brand_text(brand)
                        + " — dynamic brand-dispatch is rejected by the analyzer; declare an `#enum`)"@,
                    range: arms[i].0.range,
                },
            ),
            Ok(Some(i)) => match discarded(low, scrutinee, scope, at) {
                Err(e) => Err(e),
                Ok(f) => appended(f.ops, low.lowered(arms[i].1, scope, f.slots)),
            },
            Ok(None) => Err(no_arm(probe.ty->0, brand, range)),
        },
    }
}

fn lower_static_match<L: RecordLowering>(
    brand: Option<&String>,
    scrutinee: &Node,
    arms: &Vec<(Node, Node)>,
    builtins: &Vec<String>,
    range: TokenRange,
    scope: &Scope<'_>,
    at: &Slots,
    low: &L,
) -> (r: Result<Fragment, LoweringError>)
    ensures
        outcome(r) == static_match(
            *low,
            brand_view(brand),
            *scrutinee,
            arms@,
            builtins@,
            range,
            *scope,
            at@,
        ),
{
    let ty: IrType = match probe_expr_ir_ty(scrutinee, scope, at, low) {
        Err(e) => {
            return Err(e);
        },
        Ok(t) => t,
    };
    let chosen: usize = match select_arm(ty, brand, arms, builtins) {
        Err(i) => {
            return Err(
                LoweringError::UnsupportedExpr {
                    kind: join3(
                        "Match(arm pattern not statically decidable for scrutinee type ",
                        ty.name(),
                        " brand ",
                    ).concat(show_brand(brand).as_str()).concat(
                        " — dynamic brand-dispatch is rejected by the analyzer; declare an `#enum`)",
                    ),
                    range: arms[i].0.range,
                },
            );
        },
        Ok(None) => {
            return Err(
                LoweringError::UnsupportedExpr {
                    kind: join3(
                        "Match(no arm matches scrutinee type ",
                        ty.name(),
                        " brand ",
                    ).concat(show_brand(brand).as_str()).concat(")"),
                    range,
                },
            );
        },
        Ok(Some(i)) => i,
    };
    let aside: Fragment = match lower_discarded(scrutinee, scope, at, low) {
        Err(e) => {
            return Err(e);
        },
        Ok(f) => f,
    };
    let Fragment { ops, slots, .. } = aside;
    let mut out: Vec<TaggedOp> = ops;
    match low.lower_node(&arms[chosen].1, scope, &slots) {
        Err(e) => Err(e),
        Ok(f) => {
            let Fragment { ops: more, ty, slots: behind } = f;
            emit_all(&mut out, more);
            Ok(Fragment { ops: out, ty, slots: behind })
        },
    }
}

/// The record brand of the value matched on.
pub open spec fn scrutinee_brand(frame: Frame<'_>, scrutinee: Node, scope: Scope<'_>) -> Option<
    Seq<char>,
> {
    match *scrutinee.expr {
        Expr::Variable(path) => receiver_brand(frame, path@, scope),
        _ => None,
    }
}

/// The lowering of a match.
pub open spec fn match_lowered<L: RecordLowering>(
    low: L,
    frame: Frame<'_>,
    scrutinee: Node,
    arms: Seq<(Node, Node)>,
    builtins: Seq<String>,
    range: TokenRange,
    scope: Scope<'_>,
    at: SlotsView,
) -> Result<FragmentView, ErrorView> {
    match runtime_match(low, frame, scrutinee, arms, range, scope, at) {
        Some(r) => r,
        None => static_match(
            low,
            scrutinee_brand(frame, scrutinee, scope),
            scrutinee,
            arms,
            builtins,
            range,
            scope,
            at,
        ),
    }
}

/// Lowers a match. `builtins` are the names of the builtin types.
pub fn lower_match<L: RecordLowering>(
    scrutinee: &Node,
    arms: &Vec<(Node, Node)>,
    builtins: &Vec<String>,
    range: TokenRange,
    frame: &Frame<'_>,
    scope: &Scope<'_>,
    at: &Slots,
    low: &L,
) -> (r: Result<Fragment, LoweringError>)
    ensures
        outcome(r) == match_lowered(
            *low,
            *frame,
            *scrutinee,
            arms@,
            builtins@,
            range,
            *scope,
            at@,
        ),
{
    match try_lower_runtime_enum_match(scrutinee, arms, range, frame, scope, at, low) {
        Some(r) => {
            return r;
        },
        None => {},
    }
    let brand: Option<&String> = match &*scrutinee.expr {
        Expr::Variable(path) => resolve_receiver_schema_brand(path, frame, scope),
        _ => None,
    };
    lower_static_match(brand, scrutinee, arms, builtins, range, scope, at, low)
}

proof fn lemma_selection(
    ty: IrType,
    brand: Option<Seq<char>>,
    arms: Seq<(Node, Node)>,
    builtins: Seq<String>,
    from: int,
    i: int,
)
    requires
        0 <= from <= arms.len(),
    ensures
        selection(ty, brand, arms, builtins, from) == Ok::<Option<int>, int>(Some(i)) <==> (from
            <= i < arms.len() && arm_decision(ty, brand, *arms[i].0.expr, builtins)
            == StaticArmDecision::Matches && forall|j: int|
            from <= j < i ==> arm_decision(ty, brand, *(#[trigger] arms[j]).0.expr, builtins)
                == StaticArmDecision::Never),
    decreases arms.len() - from,
{
    if from < arms.len() {
        lemma_selection(ty, brand, arms, builtins, from + 1, i);
        if from < i < arms.len() {
            assert(arms[from] == arms[from]);
        }
    }
}

/// An arm is selected by the static type exactly if it matches and no arm
/// before it does or might.
pub proof fn law_first_matching_arm_wins(
    ty: IrType,
    brand: Option<Seq<char>>,
    arms: Seq<(Node, Node)>,
    builtins: Seq<String>,
    i: int,
)
    ensures
        selection(ty, brand, arms, builtins, 0) == Ok::<Option<int>, int>(Some(i)) <==> (0 <= i
            < arms.len() && arm_decision(ty, brand, *arms[i].0.expr, builtins)
            == StaticArmDecision::Matches && forall|j: int|
            0 <= j < i ==> arm_decision(ty, brand, *(#[trigger] arms[j]).0.expr, builtins)
                == StaticArmDecision::Never),
{
    lemma_selection(ty, brand, arms, builtins, 0, i);
}

/// A match by the static type evaluates the value matched on once, puts it
/// aside, and then evaluates the selected arm.
pub proof fn law_static_match_evaluates_once<L: RecordLowering>(
    low: L,
    brand: Option<Seq<char>>,
    scrutinee: Node,
    arms: Seq<(Node, Node)>,
    builtins: Seq<String>,
    range: TokenRange,
    scope: Scope<'_>,
    at: SlotsView,
    i: int,
)
    requires
        static_match(low, brand, scrutinee, arms, builtins, range, scope, at) is Ok,
        selection(
            low.lowered(scrutinee, scope, at)->Ok_0.ty->0,
            brand,
            arms,
            builtins,
            0,
        ) == Ok::<Option<int>, int>(Some(i)),
    ensures
        ({
            let value = low.lowered(scrutinee, scope, at)->Ok_0;
            let body = low.lowered(arms[i].1, scope, value.slots.after(1))->Ok_0;
            let f = static_match(
                low,
                brand,
                scrutinee,
                arms,
                builtins,
                range,
                scope,
                at,
            )->Ok_0;
            f.ops == value.ops.push(
                let_set(value.slots.lets, value.ty->0, scrutinee.range),
            ) + body.ops && f.ty == body.ty
        }),
{
}

// ---------------------------------------------------------------------------
// Every tag runs an arm of its own.
// ---------------------------------------------------------------------------

/// The arm that the chain of tests reaches for a tag.
pub open spec fn arm_taken(arms: Seq<ArmView>, tag: u8) -> int
    decreases arms.len(),
{
    if arms.len() <= 1 {
        0
    } else {
        match arms[0].tag {
            None => 0,
            Some(t) => if t == tag {
                0
            } else {
                1 + arm_taken(arms.drop_first(), tag)
            },
        }
    }
}

proof fn lemma_arm_taken(arms: Seq<ArmView>, tag: u8)
    requires
        arms.len() > 0,
    ensures
        0 <= arm_taken(arms, tag) < arms.len(),
        forall|j: int|
            0 <= j < arm_taken(arms, tag) ==> (#[trigger] arms[j]).tag is Some && arms[j].tag
                != Some(tag),
        arm_taken(arms, tag) < arms.len() - 1 ==> arms[arm_taken(arms, tag)].tag is None
            || arms[arm_taken(arms, tag)].tag == Some(tag),
    decreases arms.len(),
{
    if arms.len() > 1 {
        let rest = arms.drop_first();
        lemma_arm_taken(rest, tag);
        let k = arm_taken(arms, tag);
        assert forall|j: int| 0 <= j < k implies (#[trigger] arms[j]).tag is Some && arms[j].tag
            != Some(tag) by {
            if j > 0 {
                assert(arms[j] == rest[j - 1]);
            }
        }
        if k > 0 {
            assert(arms[k] == rest[k - 1]);
        }
    }
}

/// The covered tags are those of the arms; only a wildcard, which comes last,
/// has none.
pub open spec fn arms_tell_their_tags(state: MatchState) -> bool {
    &&& state.arms.len() == state.covered.len() + if state.wildcard {
        1nat
    } else {
        0
    }
    &&& forall|i: int|
        0 <= i < state.covered.len() ==> (#[trigger] state.arms[i]).tag == Some(state.covered[i])
    &&& state.wildcard ==> state.arms.last().tag is None
}

proof fn lemma_arms_tell_their_tags<L: RecordLowering>(
    low: L,
    ty: &TypeRepr,
    name: String,
    arms: Seq<(Node, Node)>,
    scrutinee: u32,
    range: TokenRange,
    scope: Scope<'_>,
    state: MatchState,
    from: int,
)
    requires
        arms_tell_their_tags(state),
        !state.wildcard,
    ensures
        arms_from(low, ty, name, arms, scrutinee, range, scope, state, from) matches Ok(s)
            ==> arms_tell_their_tags(s),
    decreases arms.len() - from,
{
    if 0 <= from < arms.len() {
        let pattern = arms[from].0;
        let body = arms[from].1;
        match pattern_variant(ty, *pattern.expr) {
            None => {},
            Some(n) => match arm_branch(
                low,
                body,
                range,
                name,
                scrutinee,
                Some(n),
                pattern_bindings(*pattern.expr),
                scope,
                state.slots,
            ) {
                Err(_) => {},
                Ok(f) => {
                    lemma_arms_tell_their_tags(
                        low,
                        ty,
                        name,
                        arms,
                        scrutinee,
                        range,
                        scope,
                        with_arm(state, Some(n.tag), f, pattern.range),
                        from + 1,
                    );
                },
            },
        }
    }
}

/// For every tag of the type, the arm that the chain of tests reaches is one
/// for that tag, or one without a tag: a wildcard, or the trap for a value that
/// no pattern names. The last arm, which is not tested, is never reached for a
/// tag of another arm.
pub proof fn law_every_tag_runs_its_arm<L: RecordLowering>(
    low: L,
    ty: &TypeRepr,
    name: String,
    arms: Seq<(Node, Node)>,
    scrutinee: u32,
    range: TokenRange,
    scope: Scope<'_>,
    at: SlotsView,
    tag: u8,
)
    requires
        variant_tags(*ty) matches Some(tags) && tags.contains(tag),
        arms.len() > 0,
    ensures
        arms_from(
            low,
            ty,
            name,
            arms,
            scrutinee,
            range,
            scope,
            (MatchState {
                arms: Seq::empty(),
                covered: Seq::empty(),
                wildcard: false,
                slots: at,
            }),
            0,
        ) matches Ok(state) ==> (closed_arms(*ty, state, range) matches Ok((closed, _)) ==> ({
            let taken = arm_taken(closed, tag);
            &&& 0 <= taken < closed.len()
            &&& closed[taken].tag is None || closed[taken].tag == Some(tag)
        })),
{
    let start = MatchState {
        arms: Seq::empty(),
        covered: Seq::empty(),
        wildcard: false,
        slots: at,
    };
    lemma_arms_tell_their_tags(low, ty, name, arms, scrutinee, range, scope, start, 0);
    match arms_from(low, ty, name, arms, scrutinee, range, scope, start, 0) {
        Err(_) => {},
        Ok(state) => match closed_arms(*ty, state, range) {
            Err(_) => {},
            Ok((closed, _)) => {
                lemma_some_arm(low, ty, name, arms, scrutinee, range, scope, start, 0);
                lemma_arm_taken(closed, tag);
                let taken = arm_taken(closed, tag);
                if closed[taken].tag is Some && closed[taken].tag != Some(tag) {
                    let tags = variant_tags(*ty)->0;
                    let t = tags.index_of(tag);
                    assert(taken == closed.len() - 1);
                    assert(!state.wildcard);
                    assert(covers_all(*ty, state.covered));
                    assert(state.covered.contains(tags[t]));
                    let j = state.covered.index_of(tag);
                    assert(closed[j].tag == Some(tag));
                }
            },
        },
    }
}

proof fn lemma_some_arm<L: RecordLowering>(
    low: L,
    ty: &TypeRepr,
    name: String,
    arms: Seq<(Node, Node)>,
    scrutinee: u32,
    range: TokenRange,
    scope: Scope<'_>,
    state: MatchState,
    from: int,
)
    requires
        0 <= from <= arms.len(),
        state.arms.len() > 0 || from < arms.len(),
    ensures
        arms_from(low, ty, name, arms, scrutinee, range, scope, state, from) matches Ok(s)
            ==> s.arms.len() > 0,
    decreases arms.len() - from,
{
    if from < arms.len() {
        let pattern = arms[from].0;
        let body = arms[from].1;
        match pattern_variant(ty, *pattern.expr) {
            None => {},
            Some(n) => match arm_branch(
                low,
                body,
                range,
                name,
                scrutinee,
                Some(n),
                pattern_bindings(*pattern.expr),
                scope,
                state.slots,
            ) {
                Err(_) => {},
                Ok(f) => {
                    lemma_some_arm(
                        low,
                        ty,
                        name,
                        arms,
                        scrutinee,
                        range,
                        scope,
                        with_arm(state, Some(n.tag), f, pattern.range),
                        from + 1,
                    );
                },
            },
        }
    }
}

} // verus!

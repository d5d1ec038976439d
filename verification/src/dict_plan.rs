//! The plan for an entry point that returns a dictionary literal: what becomes
//! of each field, the record type of the result, and the order of emission.

use vstd::prelude::*;

use crate::ast::{ClosureParam, Expr, Node, TokenKey, TokenRange, TypeNode};
use crate::canonical::{
    canonical, plain_reference, type_node_is_bare_dict, type_node_to_canonical,
    type_node_to_canonical_with_schemas, MainParam, MainSignature, NoSchemas, SchemaTable,
    TypeResolver,
};
use crate::components::targets;
use crate::emit_order::{anon_dict_emit_order, emit_order_outcome, order_view};
use crate::error::{unsupported, ErrorView, LoweringError};
use crate::field_types::{
    bad_field, classify_anon_dict_list_field, classify_anon_dict_list_string_field,
    classify_anon_dict_scalar_field, classify_anon_dict_str_int_field, entries_view, field_error,
    int_entries, list_type, marked_internal, node_marked_internal, scalar_repr, string_elements,
    FieldEnv, FieldScope,
};
use crate::fragment::{ClosureSig, SigView};
use crate::ir::{texts, IrType};
use crate::names::NameTable;
use crate::shape::{
    anon_dict_cross_region_param_list, lemma_view_ir_type, native_ir_type, param_list,
    type_node_to_ir_type, type_repr_to_ir_type, view_ir_type,
};
use crate::text::join3;
use crate::types::{
    copy_type, field_view, fields_view, schema_view, type_view, Field, FieldView, Schema,
    SchemaView, TypeRepr, TypeView,
};
use crate::workspace::SchemaDef;

verus! {

/// What becomes of a field of the literal.
#[derive(Debug, PartialEq, Eq)]
pub enum AnonDictField {
    /// A hidden helper, bound to a let slot.
    Closure { name: String, sig: ClosureSig },
    /// A field that the host sees.
    Scalar { name: String, ty: TypeRepr },
    /// A hidden dictionary of integers, bound to a let slot.
    DictStrInt { name: String, entries: Vec<(String, i64)> },
    /// A hidden list of strings, bound to a let slot.
    ListString { name: String, elements: Vec<String> },
    /// A field that the host sees and that points at a list parameter.
    CrossRegionParamList { name: String, ty: TypeRepr },
}

/// The mathematical value of an [`AnonDictField`].
pub ghost enum AnonFieldView {
    Closure { name: Seq<char>, sig: SigView },
    Scalar { name: Seq<char>, ty: TypeView },
    DictStrInt { name: Seq<char>, entries: Seq<(Seq<char>, i64)> },
    ListString { name: Seq<char>, elements: Seq<Seq<char>> },
    CrossRegionParamList { name: Seq<char>, ty: TypeView },
}

impl View for AnonDictField {
    type V = AnonFieldView;

    open spec fn view(&self) -> AnonFieldView {
        match *self {
            AnonDictField::Closure { name, sig } => AnonFieldView::Closure {
                name: name@,
                sig: sig@,
            },
            AnonDictField::Scalar { name, ty } => AnonFieldView::Scalar {
                name: name@,
                ty: type_view(ty),
            },
            AnonDictField::DictStrInt { name, entries } => AnonFieldView::DictStrInt {
                name: name@,
                entries: entries_view(entries@),
            },
            AnonDictField::ListString { name, elements } => AnonFieldView::ListString {
                name: name@,
                elements: texts(elements@),
            },
            AnonDictField::CrossRegionParamList {
                name,
                ty,
            } => AnonFieldView::CrossRegionParamList { name: name@, ty: type_view(ty) },
        }
    }
}

/// The plan: the record type of what the host sees, the surviving fields in
/// the order of declaration, and the order in which to emit them.
#[derive(Debug, PartialEq, Eq)]
pub struct AnonDictPlan {
    pub schema: Schema,
    pub fields: Vec<AnonDictField>,
    pub emit_order: Vec<usize>,
}

/// The mathematical value of an [`AnonDictPlan`].
pub ghost struct PlanView {
    pub schema: SchemaView,
    pub fields: Seq<AnonFieldView>,
    pub emit_order: Seq<int>,
}

/// The mathematical value of a list of fields.
pub open spec fn anon_fields_view(fields: Seq<AnonDictField>) -> Seq<AnonFieldView> {
    Seq::new(fields.len(), |i: int| fields[i]@)
}

impl View for AnonDictPlan {
    type V = PlanView;

    open spec fn view(&self) -> PlanView {
        PlanView {
            schema: schema_view(self.schema),
            fields: anon_fields_view(self.fields@),
            emit_order: targets(self.emit_order),
        }
    }
}

// ---------------------------------------------------------------------------
// Closures.
// ---------------------------------------------------------------------------

/// How the signature of a hidden closure is told from its literal.
pub trait ClosurePlanner {
    /// The signature.
    spec fn planned(
        &self,
        params: Seq<ClosureParam>,
        return_type: Option<TypeNode>,
        body: Expr,
    ) -> SigView;

    /// Tells the signature.
    fn plan_closure_sig(
        &self,
        params: &Vec<ClosureParam>,
        return_type: &Option<TypeNode>,
        body: &Expr,
    ) -> (r: ClosureSig)
        ensures
            r@ == self.planned(params@, *return_type, *body),
    ;
}

/// Goes by the annotations alone; what bears none is an integer.
#[derive(Clone, Copy, Debug, PartialEq, Eq, Structural)]
pub struct AnnotatedClosures;

/// The annotated type, or an integer.
pub open spec fn annotated(hint: Option<TypeNode>) -> IrType {
    match hint {
        Some(t) => match native_ir_type(t) {
            Some(ty) => ty,
            None => IrType::I64,
        },
        None => IrType::I64,
    }
}

fn annotation(hint: &Option<TypeNode>) -> (r: IrType)
    ensures
        r == annotated(*hint),
{
    match hint {
        Some(t) => match type_node_to_ir_type(t) {
            Some(ty) => ty,
            None => IrType::I64,
        },
        None => IrType::I64,
    }
}

impl ClosurePlanner for AnnotatedClosures {
    open spec fn planned(
        &self,
        params: Seq<ClosureParam>,
        return_type: Option<TypeNode>,
        body: Expr,
    ) -> SigView {
        SigView {
            params: Seq::new(params.len(), |i: int| annotated(params[i].type_hint)),
            ret: annotated(return_type),
            coercible: Seq::new(params.len(), |i: int| false),
        }
    }

    fn plan_closure_sig(
        &self,
        params: &Vec<ClosureParam>,
        return_type: &Option<TypeNode>,
        body: &Expr,
    ) -> (r: ClosureSig) {
        let mut tys: Vec<IrType> = Vec::new();
        let mut coercible: Vec<bool> = Vec::new();
        let mut i: usize = 0;
        while i < params.len()
            invariant
                i <= params@.len(),
                tys@ =~= Seq::new(i as nat, |k: int| annotated(params@[k].type_hint)),
                coercible@ =~= Seq::new(i as nat, |k: int| false),
            decreases params@.len() - i,
        {
            tys.push(annotation(&params[i].type_hint));
            coercible.push(false);
            i += 1;
        }
        ClosureSig { params: tys, ret: annotation(return_type), coercible }
    }
}

// ---------------------------------------------------------------------------
// Classification of the fields.
// ---------------------------------------------------------------------------

/// What is known while the fields are classified: the names so far, and for
/// each declared field what becomes of it.
pub ghost struct PlanState {
    pub env: FieldEnv,
    pub slots: Seq<Option<AnonFieldView>>,
}

impl PlanState {
    /// The state after a field has been settled.
    pub open spec fn settled(self, decl: int, field: AnonFieldView) -> PlanState {
        PlanState { slots: self.slots.update(decl, Some(field)), ..self }
    }

    /// The state after the type of a field that others may refer to is known.
    pub open spec fn typed(self, name: Seq<char>, ty: TypeView) -> PlanState {
        match view_ir_type(ty) {
            Some(irt) => PlanState {
                env: FieldEnv { fields: self.env.fields.insert(name, irt), ..self.env },
                ..self
            },
            None => self,
        }
    }
}

/// All segments of the path are plain names.
pub open spec fn all_plain(path: Seq<TokenKey>) -> bool {
    forall|i: int| 0 <= i < path.len() ==> (#[trigger] path[i]) is String
}

fn is_all_plain(path: &Vec<TokenKey>) -> (r: bool)
    ensures
        r == all_plain(path@),
{
    let mut i: usize = 0;
    while i < path.len()
        invariant
            i <= path@.len(),
            forall|k: int| 0 <= k < i ==> (#[trigger] path@[k]) is String,
        decreases path@.len() - i,
    {
        match &path[i] {
            TokenKey::String(_, _, _) => {},
            _ => {
                assert(!(path@[i as int] is String));
                return false;
            },
        }
        i += 1;
    }
    true
}

/// The list parameter that a visible field stands for.
pub open spec fn cross_region(expr: Expr, internal: bool, params: Seq<Field>) -> Option<TypeRepr> {
    match expr {
        Expr::Variable(path) => if !internal && all_plain(path@) {
            param_list(path@, params)
        } else {
            None
        },
        _ => None,
    }
}

/// The state after the field `decl` has been classified.
pub open spec fn plan_step<P: ClosurePlanner>(
    planner: P,
    types: Seq<(String, &SchemaDef)>,
    params: Seq<Field>,
    pairs: Seq<(TokenKey, Node)>,
    range: TokenRange,
    state: PlanState,
    decl: int,
) -> Result<PlanState, ErrorView> {
    match pairs[decl].0 {
        TokenKey::String(name, _, _) => field_step(
            planner,
            types,
            params,
            name@,
            name,
            pairs[decl].1,
            state,
            decl,
        ),
        _ => Err(
            ErrorView::UnsupportedExpr {
                kind: "Dict(non-string-key in anon-Dict-return body)"@,
                range,
            },
        ),
    }
}

/// The state after the field of the given name and value has been classified.
pub open spec fn field_step<P: ClosurePlanner>(
    planner: P,
    types: Seq<(String, &SchemaDef)>,
    params: Seq<Field>,
    name: Seq<char>,
    owned: String,
    value: Node,
    state: PlanState,
    decl: int,
) -> Result<PlanState, ErrorView> {
    let internal = marked_internal(value);
    match *value.expr {
        Expr::Closure { params: ps, return_type, body } => if !internal {
            Err(
                ErrorView::ClosureAcrossBoundary {
                    context: "anon-Dict-return field `"@ + name
                        + "` is a closure but not `#internal`"@,
                    range: value.range,
                },
            )
        } else {
            let sig = planner.planned(ps@, return_type, *body.expr);
            Ok(
                PlanState {
                    env: FieldEnv {
                        closures: state.env.closures.insert(name, sig.ret),
                        ..state.env
                    },
                    ..state
                }.settled(
                    decl,
                    AnonFieldView::Closure { name, sig },
                ),
            )
        },
        Expr::Dict(inner) => if !internal {
            Err(
                bad_field(
                    name,
                    "Dict-valued anon-Dict-return field is only supported as `#internal`"@,
                    value.range,
                ),
            )
        } else {
            match int_entries(inner@, value.range, name, 0) {
                Err(e) => Err(e),
                Ok(entries) => Ok(
                    PlanState {
                        env: FieldEnv { dicts: state.env.dicts.push(owned), ..state.env },
                        ..state
                    }.settled(decl, AnonFieldView::DictStrInt { name, entries }),
                ),
            }
        },
        Expr::List(items) => if internal {
            match string_elements(items@, value.range, name, 0) {
                Err(e) => Err(e),
                Ok(elements) => Ok(
                    state.settled(decl, AnonFieldView::ListString { name, elements }),
                ),
            }
        } else {
            match list_type(items@, value.range, name, types, state.env.params) {
                Err(e) => Err(e),
                Ok(ty) => Ok(
                    state.typed(name, ty).settled(decl, AnonFieldView::Scalar { name, ty }),
                ),
            }
        },
        other => match cross_region(other, internal, params) {
            Some(ty) => Ok(
                state.settled(
                    decl,
                    AnonFieldView::CrossRegionParamList { name, ty: type_view(ty) },
                ),
            ),
            None => if internal {
                Ok(state)
            } else {
                match scalar_repr(state.env, other, value.range, name) {
                    Err(e) => Err(e),
                    Ok(ty) => Ok(
                        state.typed(name, type_view(ty)).settled(
                            decl,
                            AnonFieldView::Scalar { name, ty: type_view(ty) },
                        ),
                    ),
                }
            },
        },
    }
}

/// The state after the fields of `order` at and behind `from`.
pub open spec fn plan_steps<P: ClosurePlanner>(
    planner: P,
    types: Seq<(String, &SchemaDef)>,
    params: Seq<Field>,
    pairs: Seq<(TokenKey, Node)>,
    range: TokenRange,
    order: Seq<int>,
    state: PlanState,
    from: int,
) -> Result<PlanState, ErrorView>
    decreases order.len() - from,
{
    if from < 0 || from >= order.len() {
        Ok(state)
    } else {
        match plan_step(planner, types, params, pairs, range, state, order[from]) {
            Err(e) => Err(e),
            Ok(next) => plan_steps(
                planner,
                types,
                params,
                pairs,
                range,
                order,
                next,
                from + 1,
            ),
        }
    }
}

/// The mathematical value of the slots of the declared fields.
pub open spec fn slots_view(slots: Seq<Option<AnonDictField>>) -> Seq<Option<AnonFieldView>> {
    Seq::new(
        slots.len(),
        |i: int|
            match slots[i] {
                Some(f) => Some(f@),
                None => None,
            },
    )
}

fn settle(slots: &mut Vec<Option<AnonDictField>>, decl: usize, field: AnonDictField)
    requires
        decl < old(slots)@.len(),
    ensures
        slots_view(final(slots)@) == slots_view(old(slots)@).update(decl as int, Some(field@)),
        final(slots)@.len() == old(slots)@.len(),
{
    slots.set(decl, Some(field));
    assert(slots_view(slots@) =~= slots_view(old(slots)@).update(decl as int, Some(field@)));
}

fn note_type(scope: &mut FieldScope, name: &String, ty: &TypeRepr)
    requires
        old(scope).wf(),
    ensures
        final(scope).wf(),
        final(scope)@ == (match view_ir_type(type_view(*ty)) {
            Some(irt) => FieldEnv {
                fields: old(scope)@.fields.insert(name@, irt),
                ..old(scope)@
            },
            None => old(scope)@,
        }),
{
    proof {
        lemma_view_ir_type(*ty);
    }
    match type_repr_to_ir_type(ty) {
        Ok(irt) => scope.fields.insert(name.clone(), irt),
        Err(_) => {},
    }
}

/// Classifies one field.
fn plan_field<P: ClosurePlanner>(
    planner: &P,
    types: &SchemaTable<'_>,
    params: &Vec<Field>,
    name: &String,
    value: &Node,
    scope: &mut FieldScope,
    slots: &mut Vec<Option<AnonDictField>>,
    decl: usize,
) -> (r: Result<(), LoweringError>)
    requires
        old(scope).wf(),
        decl < old(slots)@.len(),
    ensures
        final(scope).wf(),
        final(slots)@.len() == old(slots)@.len(),
        ({
            let state = PlanState { env: old(scope)@, slots: slots_view(old(slots)@) };
            let step = field_step(
                *planner,
                types.entries@,
                params@,
                name@,
                *name,
                *value,
                state,
                decl as int,
            );
            match r {
                Ok(_) => step == Ok::<PlanState, ErrorView>(
                    PlanState { env: final(scope)@, slots: slots_view(final(slots)@) },
                ),
                Err(e) => step == Err::<PlanState, ErrorView>(e@),
            }
        }),
{
    let internal: bool = node_marked_internal(value);
    match &*value.expr {
        Expr::Closure { params: ps, return_type, body } => {
            if !internal {
                return Err(
                    LoweringError::ClosureAcrossBoundary {
                        context: join3(
                            "anon-Dict-return field `",
                            name.as_str(),
                            "` is a closure but not `#internal`",
                        ),
                        range: value.range,
                    },
                );
            }
            let sig: ClosureSig = planner.plan_closure_sig(ps, return_type, &*body.expr);
            scope.closures.insert(name.clone(), sig.ret);
            settle(slots, decl, AnonDictField::Closure { name: name.clone(), sig });
            Ok(())
        },
        Expr::Dict(inner) => {
            if !internal {
                return Err(
                    field_error(
                        name.as_str(),
                        "Dict-valued anon-Dict-return field is only supported as `#internal`".to_owned(),
                        value.range,
                    ),
                );
            }
            match classify_anon_dict_str_int_field(inner, value.range, name.as_str()) {
                Err(e) => Err(e),
                Ok(entries) => {
                    scope.dicts.push(name.clone());
                    settle(slots, decl, AnonDictField::DictStrInt { name: name.clone(), entries });
                    Ok(())
                },
            }
        },
        Expr::List(items) => {
            if internal {
                match classify_anon_dict_list_string_field(items, value.range, name.as_str()) {
                    Err(e) => Err(e),
                    Ok(elements) => {
                        settle(
                            slots,
                            decl,
                            AnonDictField::ListString { name: name.clone(), elements },
                        );
                        Ok(())
                    },
                }
            } else {
                match classify_anon_dict_list_field(
                    items,
                    value.range,
                    name.as_str(),
                    types,
                    &scope.params,
                ) {
                    Err(e) => Err(e),
                    Ok(ty) => {
                        note_type(scope, name, &ty);
                        settle(slots, decl, AnonDictField::Scalar { name: name.clone(), ty });
                        Ok(())
                    },
                }
            }
        },
        other => {
            let list: Option<&TypeRepr> = match other {
                Expr::Variable(path) => if !internal && is_all_plain(path) {
                    anon_dict_cross_region_param_list(path, params)
                } else {
                    None
                },
                _ => None,
            };
            match list {
                Some(ty) => {
                    settle(
                        slots,
                        decl,
                        AnonDictField::CrossRegionParamList {
                            name: name.clone(),
                            ty: copy_type(ty),
                        },
                    );
                    Ok(())
                },
                None => {
                    if internal {
                        return Ok(());
                    }
                    match classify_anon_dict_scalar_field(
                        other,
                        value.range,
                        scope,
                        name.as_str(),
                    ) {
                        Err(e) => Err(e),
                        Ok(ty) => {
                            note_type(scope, name, &ty);
                            settle(slots, decl, AnonDictField::Scalar { name: name.clone(), ty });
                            Ok(())
                        },
                    }
                },
            }
        },
    }
}

// ---------------------------------------------------------------------------
// The surviving fields.
// ---------------------------------------------------------------------------

/// The settled fields, in the order of declaration.
pub open spec fn kept(slots: Seq<Option<AnonFieldView>>) -> Seq<AnonFieldView>
    decreases slots.len(),
{
    if slots.len() == 0 {
        Seq::empty()
    } else {
        match slots.last() {
            Some(f) => kept(slots.drop_last()).push(f),
            None => kept(slots.drop_last()),
        }
    }
}

/// The positions among the settled fields, in the order of emission.
pub open spec fn kept_order(slots: Seq<Option<AnonFieldView>>, order: Seq<int>) -> Seq<int>
    decreases order.len(),
{
    if order.len() == 0 {
        Seq::empty()
    } else {
        let rest = kept_order(slots, order.drop_last());
        if slots[order.last()] is Some {
            rest.push(kept(slots.take(order.last())).len() as int)
        } else {
            rest
        }
    }
}

/// The record fields that the host sees.
pub open spec fn host_fields(fields: Seq<AnonFieldView>) -> Seq<FieldView>
    decreases fields.len(),
{
    if fields.len() == 0 {
        Seq::empty()
    } else {
        let rest = host_fields(fields.drop_last());
        match fields.last() {
            AnonFieldView::Scalar { name, ty } => rest.push(FieldView { name, ty }),
            AnonFieldView::CrossRegionParamList { name, ty } => rest.push(FieldView { name, ty }),
            _ => rest,
        }
    }
}

/// The plan that the classified fields amount to.
pub open spec fn plan_of(slots: Seq<Option<AnonFieldView>>, order: Seq<int>) -> PlanView {
    PlanView {
        schema: SchemaView {
            name: "Ret"@,
            fields: host_fields(kept(slots)),
            is_tuple: false,
        },
        fields: kept(slots),
        emit_order: kept_order(slots, order),
    }
}

/// Settled fields keep their order: the position of each is the number of those
/// before it.
pub proof fn lemma_kept_position(slots: Seq<Option<AnonFieldView>>, i: int, j: int)
    requires
        0 <= i < j <= slots.len(),
    ensures
        kept(slots.take(i)).len() + (if slots[i] is Some {
            1int
        } else {
            0
        }) <= kept(slots.take(j)).len(),
    decreases j - i,
{
    assert(slots.take(j).drop_last() =~= slots.take(j - 1));
    assert(slots.take(j).last() == slots[j - 1]);
    if i < j - 1 {
        lemma_kept_position(slots, i, j - 1);
    }
}

/// The order of emission refers to settled fields only.
pub proof fn lemma_kept_order_in_range(slots: Seq<Option<AnonFieldView>>, order: Seq<int>)
    requires
        forall|k: int| 0 <= k < order.len() ==> 0 <= (#[trigger] order[k]) < slots.len(),
    ensures
        forall|k: int|
            0 <= k < kept_order(slots, order).len() ==> 0 <= (#[trigger] kept_order(
                slots,
                order,
            )[k]) < kept(slots).len(),
    decreases order.len(),
{
    if order.len() > 0 {
        let rest = order.drop_last();
        assert forall|k: int| 0 <= k < rest.len() implies 0 <= (#[trigger] rest[k])
            < slots.len() by {
            assert(rest[k] == order[k]);
        }
        lemma_kept_order_in_range(slots, rest);
        let j = order.last();
        assert(order[order.len() - 1] == j);
        lemma_kept_position(slots, j, slots.len() as int);
        assert(slots.take(slots.len() as int) =~= slots);
        let before = kept_order(slots, rest);
        let all = kept_order(slots, order);
        assert forall|k: int| 0 <= k < all.len() implies 0 <= (#[trigger] all[k])
            < kept(slots).len() by {
            if k < before.len() {
                assert(all[k] == before[k]);
            }
        }
    }
}

/// An emitted position is that of a settled field of the order.
proof fn lemma_kept_order_source(
    slots: Seq<Option<AnonFieldView>>,
    order: Seq<int>,
    k: int,
) -> (m: int)
    requires
        0 <= k < kept_order(slots, order).len(),
    ensures
        0 <= m < order.len(),
        slots[order[m]] is Some,
        kept_order(slots, order)[k] == kept(slots.take(order[m])).len(),
    decreases order.len(),
{
    let rest = kept_order(slots, order.drop_last());
    if slots[order.last()] is Some && k == rest.len() {
        order.len() - 1
    } else {
        lemma_kept_order_source(slots, order.drop_last(), k)
    }
}

/// A settled field of the order is emitted.
proof fn lemma_kept_order_has(slots: Seq<Option<AnonFieldView>>, order: Seq<int>, m: int)
    requires
        0 <= m < order.len(),
        slots[order[m]] is Some,
    ensures
        kept_order(slots, order).contains(kept(slots.take(order[m])).len() as int),
    decreases order.len(),
{
    let p = kept(slots.take(order[m])).len() as int;
    let all = kept_order(slots, order);
    if m == order.len() - 1 {
        assert(all.last() == p);
    } else {
        let rest = kept_order(slots, order.drop_last());
        lemma_kept_order_has(slots, order.drop_last(), m);
        let k = choose|k: int| 0 <= k < rest.len() && rest[k] == p;
        assert(all[k] == p);
    }
}

/// Every position belongs to a settled field.
proof fn lemma_position_is_taken(slots: Seq<Option<AnonFieldView>>, p: int) -> (i: int)
    requires
        0 <= p < kept(slots).len(),
    ensures
        0 <= i < slots.len(),
        slots[i] is Some,
        kept(slots.take(i)).len() == p,
    decreases slots.len(),
{
    let rest = slots.drop_last();
    assert(slots.take(slots.len() - 1) =~= rest);
    if slots.last() is Some && p == kept(rest).len() {
        slots.len() - 1
    } else {
        let i = lemma_position_is_taken(rest, p);
        assert(rest.take(i) =~= slots.take(i));
        i
    }
}

proof fn lemma_kept_order_distinct(slots: Seq<Option<AnonFieldView>>, order: Seq<int>)
    requires
        order.no_duplicates(),
        forall|k: int| 0 <= k < order.len() ==> 0 <= (#[trigger] order[k]) < slots.len(),
    ensures
        kept_order(slots, order).no_duplicates(),
    decreases order.len(),
{
    if order.len() > 0 {
        let rest = order.drop_last();
        assert forall|k: int| 0 <= k < rest.len() implies 0 <= (#[trigger] rest[k])
            < slots.len() by {
            assert(rest[k] == order[k]);
        }
        assert(rest.no_duplicates());
        lemma_kept_order_distinct(slots, rest);
        let j = order.last();
        assert(order[order.len() - 1] == j);
        if slots[j] is Some {
            let before = kept_order(slots, rest);
            let p = kept(slots.take(j)).len() as int;
            assert forall|k: int| 0 <= k < before.len() implies before[k] != p by {
                let m = lemma_kept_order_source(slots, rest, k);
                assert(rest[m] == order[m]);
                if rest[m] < j {
                    lemma_kept_position(slots, rest[m], j);
                } else {
                    lemma_kept_position(slots, j, rest[m]);
                }
            }
        }
    }
}

/// A plan emits each of its fields exactly once: where the fields are
/// classified in an order that holds each of them once, the order of emission
/// holds each position among the settled ones once.
pub proof fn law_plan_emits_each_field_once(slots: Seq<Option<AnonFieldView>>, order: Seq<int>)
    requires
        order.no_duplicates(),
        forall|k: int| 0 <= k < order.len() ==> 0 <= (#[trigger] order[k]) < slots.len(),
        forall|i: int| 0 <= i < slots.len() ==> #[trigger] order.contains(i),
    ensures
        plan_of(slots, order).emit_order.no_duplicates(),
        forall|p: int|
            0 <= p < plan_of(slots, order).fields.len() <==> #[trigger] plan_of(
                slots,
                order,
            ).emit_order.contains(p),
{
    let fields = kept(slots);
    let emitted = kept_order(slots, order);
    lemma_kept_order_distinct(slots, order);
    lemma_kept_order_in_range(slots, order);
    assert forall|p: int| 0 <= p < fields.len() <==> #[trigger] emitted.contains(p) by {
        if 0 <= p < fields.len() {
            let i = lemma_position_is_taken(slots, p);
            assert(order.contains(i));
            let m = choose|m: int| 0 <= m < order.len() && order[m] == i;
            lemma_kept_order_has(slots, order, m);
        }
        if emitted.contains(p) {
            let k = choose|k: int| 0 <= k < emitted.len() && emitted[k] == p;
            assert(0 <= emitted[k] < fields.len());
        }
    }
}

/// The order of emission refers to fields of the plan.
pub open spec fn order_in_range(plan: AnonDictPlan) -> bool {
    forall|k: int|
        0 <= k < plan.emit_order@.len() ==> (#[trigger] plan.emit_order@[k]) < plan.fields@.len()
}

/// For each declared field its position among the settled ones.
fn positions(slots: &Vec<Option<AnonDictField>>) -> (r: Vec<Option<usize>>)
    ensures
        r@.len() == slots@.len(),
        forall|i: int|
            0 <= i < slots@.len() ==> match #[trigger] r@[i] {
                Some(p) => slots_view(slots@)[i] is Some && p as int == kept(
                    slots_view(slots@).take(i),
                ).len(),
                None => slots_view(slots@)[i] is None,
            },
{
    let mut out: Vec<Option<usize>> = Vec::new();
    let mut at: usize = 0;
    let mut i: usize = 0;
    let ghost v = slots_view(slots@);
    assert(v.take(0) =~= Seq::empty());
    while i < slots.len()
        invariant
            i <= slots@.len(),
            at <= i,
            v == slots_view(slots@),
            out@.len() == i,
            at as int == kept(v.take(i as int)).len(),
            forall|k: int|
                0 <= k < i ==> match #[trigger] out@[k] {
                    Some(p) => v[k] is Some && p as int == kept(v.take(k)).len(),
                    None => v[k] is None,
                },
        decreases slots@.len() - i,
    {
        assert(v.take(i + 1).drop_last() =~= v.take(i as int));
        assert(v.take(i + 1).last() == v[i as int]);
        if slots[i].is_some() {
            out.push(Some(at));
            at += 1;
        } else {
            out.push(None);
        }
        i += 1;
    }
    out
}

/// The settled fields.
fn collect_kept(slots: Vec<Option<AnonDictField>>) -> (r: Vec<AnonDictField>)
    ensures
        anon_fields_view(r@) == kept(slots_view(slots@)),
{
    let ghost v = slots_view(slots@);
    let mut rest: Vec<Option<AnonDictField>> = slots;
    let mut out: Vec<AnonDictField> = Vec::new();
    assert(v.take(0) =~= Seq::empty());
    assert(anon_fields_view(out@) =~= Seq::empty());
    let ghost mut i: int = 0;
    while rest.len() > 0
        invariant
            0 <= i <= v.len(),
            i + rest@.len() == v.len(),
            slots_view(rest@) == v.skip(i),
            anon_fields_view(out@) == kept(v.take(i)),
        decreases rest@.len(),
    {
        let ghost before = rest@;
        let first: Option<AnonDictField> = rest.remove(0);
        assert(v.skip(i)[0] == v[i]);
        assert(slots_view(before)[0] == v[i]);
        assert(slots_view(rest@) =~= v.skip(i + 1)) by {
            assert forall|k: int| 0 <= k < rest@.len() implies slots_view(rest@)[k] == v.skip(
                i + 1,
            )[k] by {
                assert(slots_view(before)[k + 1] == v.skip(i)[k + 1]);
            }
        }
        assert(v.take(i + 1).drop_last() =~= v.take(i));
        assert(v.take(i + 1).last() == v[i]);
        match first {
            Some(f) => {
                let ghost so_far = anon_fields_view(out@);
                out.push(f);
                assert(anon_fields_view(out@) =~= so_far.push(f@));
            },
            None => {},
        }
        proof {
            i = i + 1;
        }
    }
    assert(v.take(v.len() as int) =~= v);
    out
}

/// The record fields that the host sees.
fn collect_host_fields(fields: &Vec<AnonDictField>) -> (r: Vec<Field>)
    ensures
        fields_view(r@) == host_fields(anon_fields_view(fields@)),
{
    let ghost v = anon_fields_view(fields@);
    let mut out: Vec<Field> = Vec::new();
    let mut i: usize = 0;
    assert(v.take(0) =~= Seq::empty());
    while i < fields.len()
        invariant
            i <= fields@.len(),
            v == anon_fields_view(fields@),
            fields_view(out@) == host_fields(v.take(i as int)),
        decreases fields@.len() - i,
    {
        assert(v.take(i + 1).drop_last() =~= v.take(i as int));
        assert(v.take(i + 1).last() == fields@[i as int]@);
        let ghost before = out@;
        match &fields[i] {
            AnonDictField::Scalar { name, ty } => {
                out.push(Field { name: name.clone(), ty: copy_type(ty) });
                assert(out@.drop_last() =~= before);
                assert(field_view(out@.last()) == (FieldView { name: name@, ty: type_view(*ty) }));
            },
            AnonDictField::CrossRegionParamList { name, ty } => {
                out.push(Field { name: name.clone(), ty: copy_type(ty) });
                assert(out@.drop_last() =~= before);
                assert(field_view(out@.last()) == (FieldView { name: name@, ty: type_view(*ty) }));
            },
            _ => {},
        }
        i += 1;
    }
    assert(v.take(v.len() as int) =~= v);
    out
}

/// The order of emission over the settled fields.
fn collect_kept_order(
    at: &Vec<Option<usize>>,
    order: &Vec<usize>,
    Ghost(slots): Ghost<Seq<Option<AnonFieldView>>>,
) -> (r: Vec<usize>)
    requires
        at@.len() == slots.len(),
        forall|i: int|
            0 <= i < slots.len() ==> match #[trigger] at@[i] {
                Some(p) => slots[i] is Some && p as int == kept(slots.take(i)).len(),
                None => slots[i] is None,
            },
        forall|k: int| 0 <= k < order@.len() ==> (#[trigger] order@[k]) < slots.len(),
    ensures
        targets(r) == kept_order(slots, targets(*order)),
{
    let ghost o = targets(*order);
    let mut out: Vec<usize> = Vec::new();
    let mut i: usize = 0;
    assert(o.take(0) =~= Seq::empty());
    assert(targets(out) =~= Seq::empty());
    while i < order.len()
        invariant
            i <= order@.len(),
            o == targets(*order),
            at@.len() == slots.len(),
            forall|i: int|
                0 <= i < slots.len() ==> match #[trigger] at@[i] {
                    Some(p) => slots[i] is Some && p as int == kept(slots.take(i)).len(),
                    None => slots[i] is None,
                },
            forall|k: int| 0 <= k < order@.len() ==> (#[trigger] order@[k]) < slots.len(),
            targets(out) == kept_order(slots, o.take(i as int)),
        decreases order@.len() - i,
    {
        assert(o.take(i + 1).drop_last() =~= o.take(i as int));
        assert(o.take(i + 1).last() == order@[i as int]);
        let d: usize = order[i];
        match at[d] {
            Some(p) => {
                let ghost before = targets(out);
                out.push(p);
                assert(targets(out) =~= before.push(p as int));
            },
            None => {},
        }
        i += 1;
    }
    assert(o.take(o.len() as int) =~= o);
    out
}

/// The mathematical value of a plan or an error.
pub open spec fn plan_view(r: Result<AnonDictPlan, LoweringError>) -> Result<PlanView, ErrorView> {
    match r {
        Ok(p) => Ok(p@),
        Err(e) => Err(e@),
    }
}

/// The state before any field has been classified.
pub open spec fn first_state(param_tys: Map<Seq<char>, IrType>, n: nat) -> PlanState {
    PlanState {
        env: FieldEnv {
            params: param_tys,
            closures: Map::empty(),
            dicts: Seq::empty(),
            fields: Map::empty(),
        },
        slots: Seq::new(n, |i: int| None),
    }
}

/// The plan for the fields in a given order of emission.
pub open spec fn ordered_plan<P: ClosurePlanner>(
    planner: P,
    types: Seq<(String, &SchemaDef)>,
    params: Seq<Field>,
    param_tys: Map<Seq<char>, IrType>,
    pairs: Seq<(TokenKey, Node)>,
    range: TokenRange,
    order: Seq<int>,
) -> Result<PlanView, ErrorView> {
    match plan_steps(
        planner,
        types,
        params,
        pairs,
        range,
        order,
        first_state(param_tys, pairs.len()),
        0,
    ) {
        Err(e) => Err(e),
        Ok(state) => Ok(plan_of(state.slots, order)),
    }
}

/// Plans the fields in a given order of emission.
pub fn plan_in_order<P: ClosurePlanner>(
    planner: &P,
    types: &SchemaTable<'_>,
    params: &Vec<Field>,
    param_tys: NameTable<IrType>,
    pairs: &Vec<(TokenKey, Node)>,
    range: TokenRange,
    order: &Vec<usize>,
) -> (r: Result<AnonDictPlan, LoweringError>)
    requires
        param_tys.wf(),
        forall|k: int| 0 <= k < order@.len() ==> (#[trigger] order@[k]) < pairs@.len(),
    ensures
        plan_view(r) == ordered_plan(
            *planner,
            types.entries@,
            params@,
            param_tys.as_map(),
            pairs@,
            range,
            targets(*order),
        ),
        r matches Ok(p) ==> order_in_range(p),
{
    let ghost o = targets(*order);
    let mut slots: Vec<Option<AnonDictField>> = Vec::new();
    let mut i: usize = 0;
    while i < pairs.len()
        invariant
            i <= pairs@.len(),
            slots@.len() == i,
            forall|k: int| 0 <= k < i ==> (#[trigger] slots@[k]) is None,
        decreases pairs@.len() - i,
    {
        slots.push(None);
        i += 1;
    }
    let ghost start = first_state(param_tys.as_map(), pairs@.len());
    let mut scope = FieldScope {
        params: param_tys,
        closures: NameTable::new(),
        dicts: Vec::new(),
        fields: NameTable::new(),
    };
    assert(slots_view(slots@) =~= start.slots);
    assert(scope@ == start.env);
    let ghost whole = plan_steps(
        *planner,
        types.entries@,
        params@,
        pairs@,
        range,
        o,
        start,
        0,
    );
    i = 0;
    while i < order.len()
        invariant
            i <= order@.len(),
            o == targets(*order),
            scope.wf(),
            slots@.len() == pairs@.len(),
            forall|k: int| 0 <= k < order@.len() ==> (#[trigger] order@[k]) < pairs@.len(),
            start == first_state(param_tys.as_map(), pairs@.len()),
            whole == plan_steps(
                *planner,
                types.entries@,
                params@,
                pairs@,
                range,
                o,
                start,
                0,
            ),
            whole == plan_steps(
                *planner,
                types.entries@,
                params@,
                pairs@,
                range,
                o,
                PlanState { env: scope@, slots: slots_view(slots@) },
                i as int,
            ),
        decreases order@.len() - i,
    {
        let decl: usize = order[i];
        assert(o[i as int] == decl);
        let pair = &pairs[decl];
        match &pair.0 {
            TokenKey::String(name, _, _) => match plan_field(
                planner,
                types,
                params,
                name,
                &pair.1,
                &mut scope,
                &mut slots,
                decl,
            ) {
                Err(e) => {
                    return Err(e);
                },
                Ok(_) => {},
            },
            _ => {
                return Err(unsupported("Dict(non-string-key in anon-Dict-return body)", range));
            },
        }
        i += 1;
    }
    let ghost v = slots_view(slots@);
    let at: Vec<Option<usize>> = positions(&slots);
    let emit_order: Vec<usize> = collect_kept_order(&at, order, Ghost(v));
    let fields: Vec<AnonDictField> = collect_kept(slots);
    let visible: Vec<Field> = collect_host_fields(&fields);
    proof {
        lemma_kept_order_in_range(v, o);
        assert forall|k: int| 0 <= k < emit_order@.len() implies (#[trigger] emit_order@[k])
            < fields@.len() by {
            assert(targets(emit_order)[k] == kept_order(v, o)[k]);
        }
    }
    Ok(
        AnonDictPlan {
            schema: Schema { name: "Ret".to_owned(), fields: visible, is_tuple: false },
            fields,
            emit_order,
        },
    )
}

// ---------------------------------------------------------------------------
// The plan.
// ---------------------------------------------------------------------------

/// The instruction types of the entry parameters of builtin type; of several
/// parameters of one name the last counts.
pub open spec fn param_ir_types(params: Seq<MainParam>) -> Map<Seq<char>, IrType>
    decreases params.len(),
{
    if params.len() == 0 {
        Map::empty()
    } else {
        let rest = param_ir_types(params.drop_last());
        match canonical(NoSchemas, params.last().type_node) {
            Some(t) => match view_ir_type(t) {
                Some(irt) => rest.insert(params.last().name@, irt),
                None => rest,
            },
            None => rest,
        }
    }
}

fn index_param_types(params: &Vec<MainParam>) -> (r: NameTable<IrType>)
    ensures
        r.wf(),
        r.as_map() == param_ir_types(params@),
{
    let mut out: NameTable<IrType> = NameTable::new();
    let mut i: usize = 0;
    assert(params@.take(0) =~= Seq::empty());
    while i < params.len()
        invariant
            i <= params@.len(),
            out.wf(),
            out.as_map() == param_ir_types(params@.take(i as int)),
        decreases params@.len() - i,
    {
        assert(params@.take(i + 1).drop_last() =~= params@.take(i as int));
        assert(params@.take(i + 1).last() == params@[i as int]);
        match type_node_to_canonical(&params[i].type_node) {
            Some(t) => {
                proof {
                    lemma_view_ir_type(t);
                }
                match type_repr_to_ir_type(&t) {
                    Ok(irt) => out.insert(params[i].name.clone(), irt),
                    Err(_) => {},
                }
            },
            None => {},
        }
        i += 1;
    }
    assert(params@.take(params@.len() as int) =~= params@);
    out
}

/// The canonical types of the entry parameters that have one, the last
/// parameter first.
pub open spec fn canonical_params<R: TypeResolver>(resolver: R, params: Seq<MainParam>) -> Seq<
    FieldView,
>
    decreases params.len(),
{
    if params.len() == 0 {
        Seq::empty()
    } else {
        let rest = canonical_params(resolver, params.drop_last());
        match canonical(resolver, params.last().type_node) {
            Some(ty) => seq![FieldView { name: params.last().name@, ty }] + rest,
            None => rest,
        }
    }
}

fn collect_canonical_params<R: TypeResolver>(params: &Vec<MainParam>, resolver: &R) -> (r: Vec<
    Field,
>)
    ensures
        fields_view(r@) == canonical_params(*resolver, params@),
{
    let mut out: Vec<Field> = Vec::new();
    let mut i: usize = params.len();
    let ghost whole = canonical_params(*resolver, params@);
    assert(params@.take(params@.len() as int) =~= params@);
    assert(fields_view(out@) + whole =~= whole);
    while i > 0
        invariant
            i <= params@.len(),
            whole == canonical_params(*resolver, params@),
            whole == fields_view(out@) + canonical_params(*resolver, params@.take(i as int)),
        decreases i,
    {
        i -= 1;
        assert(params@.take(i + 1).drop_last() =~= params@.take(i as int));
        assert(params@.take(i + 1).last() == params@[i as int]);
        let ghost rest = canonical_params(*resolver, params@.take(i as int));
        match type_node_to_canonical_with_schemas(&params[i].type_node, resolver) {
            Some(ty) => {
                let ghost before = out@;
                out.push(Field { name: params[i].name.clone(), ty });
                assert(out@.drop_last() =~= before);
                assert(field_view(out@.last()) == (FieldView {
                    name: params@[i as int].name@,
                    ty: type_view(ty),
                }));
                assert(fields_view(before) + (seq![field_view(out@.last())] + rest)
                    =~= fields_view(out@) + rest);
            },
            None => {},
        }
    }
    assert(params@.take(0) =~= Seq::empty());
    assert(fields_view(out@) + Seq::empty() =~= fields_view(out@));
    out
}

/// The names of the entry parameters.
pub open spec fn param_names(params: Seq<MainParam>) -> Seq<String> {
    Seq::new(params.len(), |i: int| params[i].name)
}

fn collect_param_names(params: &Vec<MainParam>) -> (r: Vec<String>)
    ensures
        r@ == param_names(params@),
{
    let mut out: Vec<String> = Vec::new();
    let mut i: usize = 0;
    while i < params.len()
        invariant
            i <= params@.len(),
            out@ =~= param_names(params@).take(i as int),
        decreases params@.len() - i,
    {
        out.push(params[i].name.clone());
        i += 1;
    }
    out
}

/// The fields to plan: those of a dictionary literal returned as a bare `Dict`.
pub open spec fn planned_pairs(sig: MainSignature, root: Node) -> Option<Seq<(TokenKey, Node)>> {
    match sig.return_type {
        Some(t) => if plain_reference(t) && t.path@[0]@ == "Dict"@ && t.generics@.len() == 0 {
            match *root.expr {
                Expr::Dict(pairs) => Some(pairs@),
                _ => None,
            }
        } else {
            None
        },
        None => None,
    }
}

/// The mathematical value of an optional plan or an error.
pub open spec fn opt_plan_view(r: Result<Option<AnonDictPlan>, LoweringError>) -> Result<
    Option<PlanView>,
    ErrorView,
> {
    match r {
        Ok(Some(p)) => Ok(Some(p@)),
        Ok(None) => Ok(None),
        Err(e) => Err(e@),
    }
}

/// What a plan outcome amounts to, given the order of emission.
pub open spec fn plan_after_order<P: ClosurePlanner>(
    planner: P,
    types: Seq<(String, &SchemaDef)>,
    params: Seq<Field>,
    sig: MainSignature,
    pairs: Seq<(TokenKey, Node)>,
    range: TokenRange,
    order: Result<Seq<int>, ErrorView>,
) -> Result<Option<PlanView>, ErrorView> {
    match order {
        Err(e) => Err(e),
        Ok(o) => match ordered_plan(
            planner,
            types,
            params,
            param_ir_types(sig.params@),
            pairs,
            range,
            o,
        ) {
            Ok(p) => Ok(Some(p)),
            Err(e) => Err(e),
        },
    }
}

/// What the outcome of planning must be.
pub open spec fn plan_outcome<P: ClosurePlanner>(
    planner: P,
    types: SchemaTable<'_>,
    sig: MainSignature,
    root: Node,
    r: Result<Option<PlanView>, ErrorView>,
) -> bool {
    match planned_pairs(sig, root) {
        None => r == Ok::<Option<PlanView>, ErrorView>(None),
        Some(pairs) => exists|order: Result<Seq<int>, ErrorView>, params: Seq<Field>|
            #![trigger emit_order_outcome(
                pairs,
                param_names(sig.params@),
                root.range,
                order,
            ), fields_view(params)]
            emit_order_outcome(pairs, param_names(sig.params@), root.range, order)
                && fields_view(params) == canonical_params(types, sig.params@) && r
                == plan_after_order(
                planner,
                types.entries@,
                params,
                sig,
                pairs,
                root.range,
                order,
            ),
    }
}

/// Plans the return of a dictionary literal; `None` where the entry point does
/// not return one.
pub fn anon_dict_return_plan<P: ClosurePlanner>(
    sig: &MainSignature,
    root: &Node,
    resolver: &SchemaTable<'_>,
    planner: &P,
) -> (r: Result<Option<AnonDictPlan>, LoweringError>)
    ensures
        plan_outcome(*planner, *resolver, *sig, *root, opt_plan_view(r)),
        r matches Ok(Some(p)) ==> order_in_range(p),
{
    match &sig.return_type {
        None => {
            return Ok(None);
        },
        Some(t) => {
            if !type_node_is_bare_dict(t) {
                return Ok(None);
            }
        },
    }
    let pairs: &Vec<(TokenKey, Node)> = match &*root.expr {
        Expr::Dict(pairs) => pairs,
        _ => {
            return Ok(None);
        },
    };
    let param_tys: NameTable<IrType> = index_param_types(&sig.params);
    let params: Vec<Field> = collect_canonical_params(&sig.params, resolver);
    let names: Vec<String> = collect_param_names(&sig.params);
    let order = anon_dict_emit_order(pairs, &names, root.range);
    let ghost seen = order_view(order);
    assert(emit_order_outcome(pairs@, param_names(sig.params@), root.range, seen));
    assert(fields_view(params@) == canonical_params(*resolver, sig.params@));
    match order {
        Err(e) => Err(e),
        Ok(order) => match plan_in_order(
            planner,
            resolver,
            &params,
            param_tys,
            pairs,
            root.range,
            &order,
        ) {
            Ok(p) => Ok(Some(p)),
            Err(e) => Err(e),
        },
    }
}

} // verus!

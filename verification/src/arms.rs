//! What the patterns of a match arm say of the value they are held against.

use vstd::prelude::*;

use crate::ast::{Expr, Node, PatternBinding, TokenKey, TokenRange, TypeNode};
use crate::error::{ErrorView, LoweringError};
use crate::fragment::{EnumVariantNarrowing, NarrowPayload, Scope, VariantName};
use crate::ir::{texts, IrType};
use crate::names::{among, is_among};
use crate::reference::{
    no_payload_field, payload_field_error, unit_payload_error, unit_payload_field,
};
use crate::shape::{binding_index, field_index, find_binding, find_field, LocalBinding};
use crate::text::{decimal, decimal_chars, same_text, text_is};
use crate::types::{EnumVariant, Schema, TypeRepr};
use crate::variant::{
    enum_path_fits, enum_path_matches, find_variant, is_variant_type, lemma_variant_index,
    path_view, variant_index, variant_part, variant_record_list_element, PayloadKey,
};

verus! {

// ---------------------------------------------------------------------------
// Patterns decided by the static type.
// ---------------------------------------------------------------------------

/// What the static type of a value says of a pattern.
#[derive(Clone, Copy, Debug, PartialEq, Eq, Structural)]
pub enum StaticArmDecision {
    /// Every value of the type matches.
    Matches,
    /// No value of the type matches.
    Never,
    /// The type does not decide.
    Undecidable,
}

/// A value of the type has one known scalar form.
pub open spec fn definite_scalar(ty: IrType) -> bool {
    match ty {
        IrType::I64 | IrType::F64 | IrType::Bool | IrType::String => true,
        _ => false,
    }
}

/// Executable form of [`definite_scalar`].
pub fn is_definite_scalar(ty: IrType) -> (r: bool)
    ensures
        r == definite_scalar(ty),
{
    match ty {
        IrType::I64 | IrType::F64 | IrType::Bool | IrType::String => true,
        _ => false,
    }
}

/// The scalar type that a pattern name stands for.
pub open spec fn scalar_pattern(name: Seq<char>) -> Option<IrType> {
    if name == "Int"@ {
        Some(IrType::I64)
    } else if name == "Float"@ {
        Some(IrType::F64)
    } else if name == "Bool"@ {
        Some(IrType::Bool)
    } else if name == "String"@ {
        Some(IrType::String)
    } else {
        None
    }
}

fn find_scalar_pattern(name: &String) -> (r: Option<IrType>)
    ensures
        r == scalar_pattern(name@),
{
    if text_is(name, "Int") {
        Some(IrType::I64)
    } else if text_is(name, "Float") {
        Some(IrType::F64)
    } else if text_is(name, "Bool") {
        Some(IrType::Bool)
    } else if text_is(name, "String") {
        Some(IrType::String)
    } else {
        None
    }
}

/// The decision for a type pattern: only a single plain name is decided. A
/// value with a record brand matches its own brand and no other declared name;
/// one without matches the name of its scalar type exactly, and no declared
/// name if it is a scalar.
pub open spec fn type_pattern_decision(
    ty: IrType,
    brand: Option<Seq<char>>,
    tn: TypeNode,
    builtins: Seq<String>,
) -> StaticArmDecision {
    if tn.is_optional || tn.path@.len() != 1 || tn.generics@.len() != 0 {
        StaticArmDecision::Undecidable
    } else {
        let name = tn.path@[0]@;
        match brand {
            Some(b) => if name == b {
                StaticArmDecision::Matches
            } else if !among(builtins, name) {
                StaticArmDecision::Never
            } else {
                StaticArmDecision::Undecidable
            },
            None => if among(builtins, name) {
                match scalar_pattern(name) {
                    Some(t) => if t == ty {
                        StaticArmDecision::Matches
                    } else if definite_scalar(ty) {
                        StaticArmDecision::Never
                    } else {
                        StaticArmDecision::Undecidable
                    },
                    None => StaticArmDecision::Undecidable,
                }
            } else if definite_scalar(ty) {
                StaticArmDecision::Never
            } else {
                StaticArmDecision::Undecidable
            },
        }
    }
}

/// The text of an optional brand.
pub open spec fn brand_view(brand: Option<&String>) -> Option<Seq<char>> {
    match brand {
        Some(b) => Some(b@),
        None => None,
    }
}

/// Decides a type pattern; `builtins` are the names of the builtin types.
pub fn static_type_pattern_decision(
    ty: IrType,
    brand: Option<&String>,
    tn: &TypeNode,
    builtins: &Vec<String>,
) -> (r: StaticArmDecision)
    ensures
        r == type_pattern_decision(ty, brand_view(brand), *tn, builtins@),
{
    if tn.is_optional || tn.path.len() != 1 || tn.generics.len() != 0 {
        return StaticArmDecision::Undecidable;
    }
    let name: &String = &tn.path[0];
    match brand {
        Some(b) => if same_text(name.as_str(), b.as_str()) {
            StaticArmDecision::Matches
        } else if !is_among(builtins, name.as_str()) {
            StaticArmDecision::Never
        } else {
            StaticArmDecision::Undecidable
        },
        None => if is_among(builtins, name.as_str()) {
            match find_scalar_pattern(name) {
                Some(t) => if t == ty {
                    StaticArmDecision::Matches
                } else if is_definite_scalar(ty) {
                    StaticArmDecision::Never
                } else {
                    StaticArmDecision::Undecidable
                },
                None => StaticArmDecision::Undecidable,
            }
        } else if is_definite_scalar(ty) {
            StaticArmDecision::Never
        } else {
            StaticArmDecision::Undecidable
        },
    }
}

/// The decision for a pattern: a wildcard always matches.
pub open spec fn arm_decision(
    ty: IrType,
    brand: Option<Seq<char>>,
    pattern: Expr,
    builtins: Seq<String>,
) -> StaticArmDecision {
    match pattern {
        Expr::Wildcard => StaticArmDecision::Matches,
        Expr::Type(tn) => type_pattern_decision(ty, brand, tn, builtins),
        _ => StaticArmDecision::Undecidable,
    }
}

/// Decides a pattern.
pub fn static_arm_decision(
    ty: IrType,
    brand: Option<&String>,
    pattern: &Expr,
    builtins: &Vec<String>,
) -> (r: StaticArmDecision)
    ensures
        r == arm_decision(ty, brand_view(brand), *pattern, builtins@),
{
    match pattern {
        Expr::Wildcard => StaticArmDecision::Matches,
        Expr::Type(tn) => static_type_pattern_decision(ty, brand, tn, builtins),
        _ => StaticArmDecision::Undecidable,
    }
}

/// An unbranded value matches at most one scalar name: two scalar patterns
/// that both match bear the same name.
pub proof fn law_one_scalar_name_matches(
    ty: IrType,
    a: TypeNode,
    b: TypeNode,
    builtins: Seq<String>,
)
    requires
        type_pattern_decision(ty, None, a, builtins) == StaticArmDecision::Matches,
        type_pattern_decision(ty, None, b, builtins) == StaticArmDecision::Matches,
    ensures
        a.path@[0]@ == b.path@[0]@,
{
}

/// A definite scalar decides every scalar pattern: it matches the one of its
/// own type and never any other.
pub proof fn law_definite_scalar_decides(ty: IrType, tn: TypeNode, builtins: Seq<String>)
    requires
        definite_scalar(ty),
        !tn.is_optional,
        tn.path@.len() == 1,
        tn.generics@.len() == 0,
        scalar_pattern(tn.path@[0]@) is Some,
        among(builtins, tn.path@[0]@),
    ensures
        type_pattern_decision(ty, None, tn, builtins) == if scalar_pattern(tn.path@[0]@) == Some(
            ty,
        ) {
            StaticArmDecision::Matches
        } else {
            StaticArmDecision::Never
        },
{
}

// ---------------------------------------------------------------------------
// Patterns that name a variant.
// ---------------------------------------------------------------------------

/// The type has variants.
pub fn enum_like_type(ty: &TypeRepr) -> (r: bool)
    ensures
        r == is_variant_type(*ty),
{
    variant_record_list_element(ty)
}

/// The name of a type with variants.
pub open spec fn variant_type_name(ty: TypeRepr) -> Option<Seq<char>> {
    match ty {
        TypeRepr::Option { .. } => Some("Option"@),
        TypeRepr::Result { .. } => Some("Result"@),
        TypeRepr::Enum { name, .. } => Some(name@),
        _ => None,
    }
}

/// Executable form of [`variant_type_name`].
pub fn enum_like_name(ty: &TypeRepr) -> (r: Option<&str>)
    ensures
        match r {
            Some(n) => variant_type_name(*ty) == Some(n@),
            None => variant_type_name(*ty) is None,
        },
{
    match ty {
        TypeRepr::Option { .. } => Some("Option"),
        TypeRepr::Result { .. } => Some("Result"),
        TypeRepr::Enum { name, .. } => Some(name.as_str()),
        _ => None,
    }
}

/// The tags of a type with variants.
pub open spec fn variant_tags(ty: TypeRepr) -> Option<Seq<u8>> {
    match ty {
        TypeRepr::Option { .. } | TypeRepr::Result { .. } => Some(seq![0u8, 1u8]),
        TypeRepr::Enum { variants, .. } => Some(
            Seq::new(variants@.len(), |i: int| variants@[i].tag),
        ),
        _ => None,
    }
}

/// Executable form of [`variant_tags`].
pub fn enum_like_tags(ty: &TypeRepr) -> (r: Option<Vec<u8>>)
    ensures
        match r {
            Some(v) => variant_tags(*ty) == Some(v@),
            None => variant_tags(*ty) is None,
        },
{
    match ty {
        TypeRepr::Option { .. } | TypeRepr::Result { .. } => {
            let mut tags: Vec<u8> = Vec::new();
            tags.push(0);
            tags.push(1);
            assert(tags@ =~= seq![0u8, 1u8]);
            Some(tags)
        },
        TypeRepr::Enum { variants, .. } => {
            let mut tags: Vec<u8> = Vec::new();
            let mut i: usize = 0;
            while i < variants.len()
                invariant
                    i <= variants@.len(),
                    tags@ =~= Seq::new(i as nat, |k: int| variants@[k].tag),
                decreases variants@.len() - i,
            {
                tags.push(variants[i].tag);
                i += 1;
            }
            Some(tags)
        },
        _ => None,
    }
}

/// The variant that a written type names.
pub open spec fn named_variant(ty: TypeRepr, pattern: TypeNode) -> Option<Seq<char>> {
    if pattern.is_optional || pattern.generics@.len() != 0 || pattern.variant_fields is Some {
        None
    } else {
        match variant_type_name(ty) {
            None => None,
            Some(name) => match variant_part(texts(pattern.path@), name) {
                None => None,
                Some(part) => if has_variant(ty, part) {
                    Some(part)
                } else {
                    None
                },
            },
        }
    }
}

/// The type has a variant of the name.
pub open spec fn has_variant(ty: TypeRepr, name: Seq<char>) -> bool {
    match ty {
        TypeRepr::Option { .. } => name == "None"@ || name == "Some"@,
        TypeRepr::Result { .. } => name == "Ok"@ || name == "Err"@,
        TypeRepr::Enum { variants, .. } => variant_index(variants@, name, 0) is Some,
        _ => false,
    }
}

fn is_variant_of(ty: &TypeRepr, name: &String) -> (r: bool)
    ensures
        r == has_variant(*ty, name@),
{
    match ty {
        TypeRepr::Option { .. } => text_is(name, "None") || text_is(name, "Some"),
        TypeRepr::Result { .. } => text_is(name, "Ok") || text_is(name, "Err"),
        TypeRepr::Enum { variants, .. } => find_variant(variants, name.as_str()).is_some(),
        _ => false,
    }
}

/// Executable form of [`named_variant`].
pub fn type_pattern_variant_name<'p>(enum_ty: &TypeRepr, pattern: &'p TypeNode) -> (r: Option<
    &'p String,
>)
    ensures
        match r {
            Some(n) => named_variant(*enum_ty, *pattern) == Some(n@),
            None => named_variant(*enum_ty, *pattern) is None,
        },
{
    if pattern.is_optional || pattern.generics.len() != 0 || pattern.variant_fields.is_some() {
        return None;
    }
    let name: &str = match enum_like_name(enum_ty) {
        None => {
            return None;
        },
        Some(n) => n,
    };
    let part: &'p String = if pattern.path.len() == 1 {
        &pattern.path[0]
    } else if pattern.path.len() == 2 && same_text(pattern.path[0].as_str(), name) {
        &pattern.path[1]
    } else {
        return None;
    };
    if is_variant_of(enum_ty, part) {
        Some(part)
    } else {
        None
    }
}

/// What an enum variant carries.
pub open spec fn enum_payload<'a>(v: &'a EnumVariant) -> NarrowPayload<'a> {
    match v.payload {
        Some(p) => match *p {
            TypeRepr::Schema { schema } => NarrowPayload::Record(&*schema, &*p),
            _ => NarrowPayload::Unit,
        },
        None => NarrowPayload::Unit,
    }
}

/// The variant of the name, if the written enum path fits.
pub open spec fn matched<'a>(
    ty: &'a TypeRepr,
    path: Option<Seq<Seq<char>>>,
    variant: Seq<char>,
) -> Option<EnumVariantNarrowing<'a>> {
    match ty {
        TypeRepr::Option { inner } => if !enum_path_fits("Option"@, path) {
            None
        } else if variant == "None"@ {
            Some(
                EnumVariantNarrowing {
                    variant: VariantName::Absent,
                    tag: 0,
                    payload: NarrowPayload::Unit,
                },
            )
        } else if variant == "Some"@ {
            Some(
                EnumVariantNarrowing {
                    variant: VariantName::Present,
                    tag: 1,
                    payload: NarrowPayload::Direct(PayloadKey::Value, &**inner),
                },
            )
        } else {
            None
        },
        TypeRepr::Result { ok, err } => if !enum_path_fits("Result"@, path) {
            None
        } else if variant == "Ok"@ {
            Some(
                EnumVariantNarrowing {
                    variant: VariantName::Success,
                    tag: 0,
                    payload: NarrowPayload::Direct(PayloadKey::Value, &**ok),
                },
            )
        } else if variant == "Err"@ {
            Some(
                EnumVariantNarrowing {
                    variant: VariantName::Failure,
                    tag: 1,
                    payload: NarrowPayload::Direct(PayloadKey::Error, &**err),
                },
            )
        } else {
            None
        },
        TypeRepr::Enum { name, variants } => if !enum_path_fits(name@, path) {
            None
        } else {
            match variant_index(variants@, variant, 0) {
                None => None,
                Some(i) => Some(
                    EnumVariantNarrowing {
                        variant: VariantName::Named(&variants@[i].name),
                        tag: variants@[i].tag,
                        payload: enum_payload(&variants@[i]),
                    },
                ),
            }
        },
        _ => None,
    }
}

/// Executable form of [`matched`].
pub fn matched_enum_variant<'a>(
    enum_ty: &'a TypeRepr,
    enum_path: Option<&Vec<String>>,
    variant: &str,
) -> (r: Option<EnumVariantNarrowing<'a>>)
    ensures
        r == matched(enum_ty, path_view(enum_path), variant@),
{
    match enum_ty {
        TypeRepr::Option { inner } => {
            if !enum_path_matches("Option", enum_path) {
                None
            } else if same_text(variant, "None") {
                Some(
                    EnumVariantNarrowing {
                        variant: VariantName::Absent,
                        tag: 0,
                        payload: NarrowPayload::Unit,
                    },
                )
            } else if same_text(variant, "Some") {
                Some(
                    EnumVariantNarrowing {
                        variant: VariantName::Present,
                        tag: 1,
                        payload: NarrowPayload::Direct(PayloadKey::Value, &**inner),
                    },
                )
            } else {
                None
            }
        },
        TypeRepr::Result { ok, err } => {
            if !enum_path_matches("Result", enum_path) {
                None
            } else if same_text(variant, "Ok") {
                Some(
                    EnumVariantNarrowing {
                        variant: VariantName::Success,
                        tag: 0,
                        payload: NarrowPayload::Direct(PayloadKey::Value, &**ok),
                    },
                )
            } else if same_text(variant, "Err") {
                Some(
                    EnumVariantNarrowing {
                        variant: VariantName::Failure,
                        tag: 1,
                        payload: NarrowPayload::Direct(PayloadKey::Error, &**err),
                    },
                )
            } else {
                None
            }
        },
        TypeRepr::Enum { name, variants } => {
            if !enum_path_matches(name.as_str(), enum_path) {
                return None;
            }
            match find_variant(variants, variant) {
                None => None,
                Some(v) => {
                    let payload = match &v.payload {
                        Some(p) => match &**p {
                            TypeRepr::Schema { schema } => NarrowPayload::Record(
                                &**schema,
                                &**p,
                            ),
                            _ => NarrowPayload::Unit,
                        },
                        None => NarrowPayload::Unit,
                    };
                    Some(
                        EnumVariantNarrowing {
                            variant: VariantName::Named(&v.name),
                            tag: v.tag,
                            payload,
                        },
                    )
                },
            }
        },
        _ => None,
    }
}

/// The variant that a pattern names.
pub open spec fn pattern_variant<'a>(ty: &'a TypeRepr, pattern: Expr) -> Option<
    EnumVariantNarrowing<'a>,
> {
    match pattern {
        Expr::Type(tn) => match named_variant(*ty, tn) {
            Some(name) => matched(ty, None, name),
            None => None,
        },
        Expr::VariantPattern { enum_path, variant, .. } => matched(
            ty,
            Some(texts(enum_path@)),
            variant@,
        ),
        _ => None,
    }
}

/// The bindings of a pattern.
pub open spec fn pattern_bindings(pattern: Expr) -> Seq<PatternBinding> {
    match pattern {
        Expr::VariantPattern { bindings, .. } => bindings@,
        _ => Seq::empty(),
    }
}

/// The variant that a pattern names, with the bindings of the pattern.
pub fn enum_pattern_variant<'a, 'p>(enum_ty: &'a TypeRepr, pattern: &'p Expr) -> (r: Option<(
    EnumVariantNarrowing<'a>,
    Option<&'p Vec<PatternBinding>>,
)>)
    ensures
        match r {
            Some(v) => pattern_variant(enum_ty, *pattern) == Some(v.0) && pattern_bindings(
                *pattern,
            ) == (match v.1 {
                Some(b) => b@,
                None => Seq::empty(),
            }),
            None => pattern_variant(enum_ty, *pattern) is None,
        },
{
    match pattern {
        Expr::Type(tn) => match type_pattern_variant_name(enum_ty, tn) {
            Some(name) => match matched_enum_variant(enum_ty, None, name.as_str()) {
                Some(n) => Some((n, None)),
                None => None,
            },
            None => None,
        },
        Expr::VariantPattern { enum_path, variant, bindings } => match matched_enum_variant(
            enum_ty,
            Some(enum_path),
            variant.as_str(),
        ) {
            Some(n) => Some((n, Some(bindings))),
            None => None,
        },
        _ => None,
    }
}

/// The type of the named payload field.
pub open spec fn payload_field_type<'a>(
    n: EnumVariantNarrowing<'a>,
    field: Seq<char>,
    range: TokenRange,
) -> Result<&'a TypeRepr, ErrorView> {
    match n.payload {
        NarrowPayload::Direct(key, ty) => if field == key.text() {
            Ok(ty)
        } else {
            Err(no_payload_field(n.variant.text(), field, range))
        },
        NarrowPayload::Unit => Err(unit_payload_field(n.variant.text(), field, range)),
        NarrowPayload::Record(schema, _) => match field_index(schema.fields@, field, 0) {
            Some(i) => Ok(&schema.fields@[i].ty),
            None => Err(no_payload_field(n.variant.text(), field, range)),
        },
    }
}

/// Executable form of [`payload_field_type`].
pub fn enum_payload_field_type<'a>(
    narrowing: &EnumVariantNarrowing<'a>,
    field_name: &String,
    range: TokenRange,
) -> (r: Result<&'a TypeRepr, LoweringError>)
    ensures
        match r {
            Ok(t) => payload_field_type(*narrowing, field_name@, range) == Ok::<
                &'a TypeRepr,
                ErrorView,
            >(t),
            Err(e) => payload_field_type(*narrowing, field_name@, range) == Err::<
                &'a TypeRepr,
                ErrorView,
            >(e@),
        },
{
    match &narrowing.payload {
        NarrowPayload::Direct(key, ty) => if same_text(field_name.as_str(), key.name()) {
            Ok(*ty)
        } else {
            Err(payload_field_error(narrowing.variant.shown(), field_name.as_str(), range))
        },
        NarrowPayload::Unit => Err(
            unit_payload_error(narrowing.variant.shown(), field_name.as_str(), range),
        ),
        NarrowPayload::Record(schema, _) => {
            let schema: &'a Schema = *schema;
            match find_field(&schema.fields, field_name) {
                Some(f) => Ok(&f.ty),
                None => Err(
                    payload_field_error(narrowing.variant.shown(), field_name.as_str(), range),
                ),
            }
        },
    }
}

/// The payload field of a binding: the written one, the only one, or the one
/// at the same position.
pub open spec fn binding_field(
    n: EnumVariantNarrowing<'_>,
    binding: PatternBinding,
    idx: nat,
) -> Seq<char> {
    match binding.field {
        Some(f) => f@,
        None => match n.payload {
            NarrowPayload::Direct(key, _) => key.text(),
            _ => decimal_chars(idx),
        },
    }
}

/// Executable form of [`binding_field`].
pub fn enum_pattern_binding_field_name(
    narrowing: &EnumVariantNarrowing<'_>,
    binding: &PatternBinding,
    idx: usize,
) -> (r: String)
    ensures
        r@ == binding_field(*narrowing, *binding, idx as nat),
{
    match &binding.field {
        Some(f) => f.clone(),
        None => match &narrowing.payload {
            NarrowPayload::Direct(key, _) => key.name().to_owned(),
            _ => decimal(idx),
        },
    }
}

/// The variable a match runs over and its type with variants: an entry
/// parameter, or else a let binding whose canonical type is known.
pub open spec fn scrutinee_type(
    scrutinee: Node,
    params: Seq<LocalBinding<'_>>,
    scope: Scope<'_>,
) -> Option<
    (String, TypeRepr),
> {
    match *scrutinee.expr {
        Expr::Variable(path) => if path@.len() == 1 {
            match path@[0] {
                TokenKey::String(name, _, _) => match variable_type(name@, params, scope) {
                    Some(ty) => if is_variant_type(ty) {
                        Some((name, ty))
                    } else {
                        None
                    },
                    None => None,
                },
                _ => None,
            }
        } else {
            None
        },
        _ => None,
    }
}

/// The canonical type of a variable.
pub open spec fn variable_type(
    name: Seq<char>,
    params: Seq<LocalBinding<'_>>,
    scope: Scope<'_>,
) -> Option<
    TypeRepr,
> {
    match binding_index(params, name, 0) {
        Some(i) => Some(*params[i].type_repr),
        None => match scope.find(name) {
            Some(b) => match b.type_repr {
                Some(t) => Some(*t),
                None => None,
            },
            None => None,
        },
    }
}

/// Executable form of [`scrutinee_type`].
pub fn enum_scrutinee_binding<'n>(
    scrutinee: &'n Node,
    params: &'n Vec<LocalBinding<'n>>,
    scope: &'n Scope<'_>,
) -> (r: Option<(&'n String, &'n TypeRepr)>)
    ensures
        match r {
            Some(v) => scrutinee_type(*scrutinee, params@, *scope) == Some((*v.0, *v.1)),
            None => scrutinee_type(*scrutinee, params@, *scope) is None,
        },
{
    let name: &'n String = match &*scrutinee.expr {
        Expr::Variable(path) => if path.len() == 1 {
            match &path[0] {
                TokenKey::String(name, _, _) => name,
                _ => {
                    return None;
                },
            }
        } else {
            return None;
        },
        _ => {
            return None;
        },
    };
    let ty: &'n TypeRepr = match find_binding(params, name) {
        Some(b) => b.type_repr,
        None => match scope.lookup(name) {
            Some(b) => match b.type_repr {
                Some(t) => t,
                None => {
                    return None;
                },
            },
            None => {
                return None;
            },
        },
    };
    if enum_like_type(ty) {
        Some((name, ty))
    } else {
        None
    }
}

/// A pattern that names a variant of an enum carries one of the tags of its
/// type.
pub proof fn law_pattern_tag_is_a_tag(ty: &TypeRepr, pattern: Expr)
    ensures
        pattern_variant(ty, pattern) matches Some(n) ==> (variant_tags(*ty) matches Some(tags)
            && tags.contains(n.tag)),
{
    match pattern_variant(ty, pattern) {
        Some(n) => {
            let tags = variant_tags(*ty)->0;
            match *ty {
                TypeRepr::Enum { variants, .. } => {
                    let name = match pattern {
                        Expr::Type(tn) => named_variant(*ty, tn)->0,
                        Expr::VariantPattern { variant, .. } => variant@,
                        _ => Seq::empty(),
                    };
                    lemma_variant_index(variants@, name, 0);
                    let i = variant_index(variants@, name, 0)->0;
                    assert(tags[i] == n.tag);
                },
                _ => {
                    assert(tags[0] == 0u8 && tags[1] == 1u8);
                },
            }
        },
        None => {},
    }
}

} // verus!

//! Variant records: their layout, the recognition of variant constructors and
//! their shapes.

use vstd::prelude::*;

use crate::ast::{expr_kind, expr_kind_name, Expr, Node, TokenKey, TokenRange};
use crate::canonical::{join_texts, joined};
use crate::error::{unsupported, ErrorView, LoweringError};
use crate::ir::texts;
use crate::shape::{is_list_hof_path, list_hof_path, reject_type, unsupported_type};
use crate::text::{join3, same_text};
use crate::types::{describe_type, type_text, type_view, EnumVariant, TypeRepr};

verus! {

// ---------------------------------------------------------------------------
// Layout.
// ---------------------------------------------------------------------------

/// The value rounded up to a multiple of the power of two `align`.
pub open spec fn aligned_up(value: usize, align: usize) -> usize {
    if align <= 1 {
        value
    } else {
        ((value + (align - 1)) as usize) & !((align - 1) as usize)
    }
}

/// Rounds a value up to an alignment.
pub fn align_up_for_lowering(value: usize, align: usize) -> (r: usize)
    requires
        align > 1 ==> value + (align - 1) <= usize::MAX,
    ensures
        r == aligned_up(value, align),
{
    if align <= 1 {
        value
    } else {
        (value + (align - 1)) & !(align - 1)
    }
}

/// For a power of two, the result is aligned, not below the value, and less
/// than one alignment above it.
pub proof fn law_align_up(value: usize, align: usize)
    requires
        align >= 1,
        align & ((align - 1) as usize) == 0,
        value + (align - 1) <= usize::MAX,
    ensures
        value <= aligned_up(value, align) <= value + (align - 1),
        aligned_up(value, align) & ((align - 1) as usize) == 0,
{
    if align > 1 {
        let mask: usize = (align - 1) as usize;
        let sum: usize = (value + mask) as usize;
        assert(mask & ((mask + 1) as usize) == 0) by {
            assert(align & mask == 0);
            assert(align & mask == mask & align) by (bit_vector);
        }
        assert(sum & !mask <= sum) by (bit_vector);
        assert((sum & !mask) & mask == 0) by (bit_vector);
        assert(sum - (sum & !mask) <= mask) by (bit_vector);
    } else {
        assert(value & 0usize == 0) by (bit_vector);
    }
}

/// Size and alignment of the slot that holds a payload; closures have none.
pub open spec fn slot_layout(t: TypeRepr) -> Option<(usize, usize)> {
    match t {
        TypeRepr::Bool | TypeRepr::Unit => Some((1usize, 1usize)),
        TypeRepr::Int | TypeRepr::Float => Some((8usize, 8usize)),
        TypeRepr::Closure => None,
        _ => Some((4usize, 4usize)),
    }
}

/// Executable form of [`slot_layout`].
pub fn payload_slot_layout_for_lowering(ty: &TypeRepr) -> (r: Result<
    (usize, usize),
    LoweringError,
>)
    ensures
        match r {
            Ok(l) => slot_layout(*ty) == Some(l),
            Err(e) => slot_layout(*ty) is None && e@ == unsupported_type(*ty),
        },
{
    match ty {
        TypeRepr::Bool | TypeRepr::Unit => Ok((1, 1)),
        TypeRepr::Int | TypeRepr::Float => Ok((8, 8)),
        TypeRepr::Closure => Err(reject_type(ty)),
        _ => Ok((4, 4)),
    }
}

/// The greater of two alignments.
pub open spec fn max_align(a: usize, b: usize) -> usize {
    if a >= b {
        a
    } else {
        b
    }
}

/// The alignment that one payload imposes on a record of alignment `align`.
pub open spec fn payload_align(t: TypeRepr, align: usize) -> Result<usize, ErrorView>
    decreases t, 2nat,
{
    match slot_layout(t) {
        None => Err(unsupported_type(t)),
        Some((_, slot)) => match graph_align(t) {
            Err(e) => Err(e),
            Ok(graph) => Ok(max_align(max_align(align, slot), graph)),
        },
    }
}

/// The alignment a type imposes on the record that refers to it.
pub open spec fn graph_align(t: TypeRepr) -> Result<usize, ErrorView>
    decreases t, 1nat,
{
    match t {
        TypeRepr::Bool | TypeRepr::Unit => Ok(1),
        TypeRepr::Int | TypeRepr::Float => Ok(8),
        TypeRepr::String | TypeRepr::List { .. } | TypeRepr::Schema { .. } => Ok(4),
        TypeRepr::Option { .. } | TypeRepr::Result { .. } | TypeRepr::Enum { .. } => variant_align(
            t,
        ),
        TypeRepr::Closure => Err(unsupported_type(t)),
    }
}

/// The alignment of a variant record: at least four, and that of every
/// possible payload.
pub open spec fn variant_align(t: TypeRepr) -> Result<usize, ErrorView>
    decreases t, 0nat,
{
    match t {
        TypeRepr::Option { inner } => payload_align(*inner, 4),
        TypeRepr::Result { ok, err } => match payload_align(*ok, 4) {
            Err(e) => Err(e),
            Ok(a) => payload_align(*err, a),
        },
        TypeRepr::Enum { variants, .. } => variants_align(variants@),
        _ => Err(unsupported_type(t)),
    }
}

/// The alignment of the records of a list of variants.
pub open spec fn variants_align(variants: Seq<EnumVariant>) -> Result<usize, ErrorView>
    decreases variants, 0nat,
{
    if variants.len() == 0 {
        Ok(4)
    } else {
        match variants_align(variants.drop_last()) {
            Err(e) => Err(e),
            Ok(a) => variant_payload_align(variants.last(), a),
        }
    }
}

/// The alignment after taking one variant's payload into account.
pub open spec fn variant_payload_align(v: EnumVariant, align: usize) -> Result<usize, ErrorView>
    decreases v, 0nat,
{
    match v.payload {
        Some(p) => payload_align(*p, align),
        None => Ok(align),
    }
}

proof fn lemma_variants_align_prefix(variants: Seq<EnumVariant>, k: int)
    requires
        0 <= k <= variants.len(),
        variants_align(variants.take(k)) is Err,
    ensures
        variants_align(variants) == variants_align(variants.take(k)),
    decreases variants.len(),
{
    if k == variants.len() {
        assert(variants.take(k) =~= variants);
    } else {
        assert(variants.drop_last().take(k) =~= variants.take(k));
        lemma_variants_align_prefix(variants.drop_last(), k);
    }
}

/// The mathematical value of an alignment result.
pub open spec fn align_outcome(r: Result<usize, LoweringError>) -> Result<usize, ErrorView> {
    match r {
        Ok(a) => Ok(a),
        Err(e) => Err(e@),
    }
}

fn payload_alignment(t: &TypeRepr, align: usize) -> (r: Result<usize, LoweringError>)
    ensures
        align_outcome(r) == payload_align(*t, align),
    decreases t, 2nat,
{
    match payload_slot_layout_for_lowering(t) {
        Err(e) => Err(e),
        Ok((_, slot)) => match type_graph_alignment_for_lowering(t) {
            Err(e) => Err(e),
            Ok(graph) => {
                let a: usize = if align >= slot {
                    align
                } else {
                    slot
                };
                Ok(
                    if a >= graph {
                        a
                    } else {
                        graph
                    },
                )
            },
        },
    }
}

/// Executable form of [`graph_align`].
pub fn type_graph_alignment_for_lowering(ty: &TypeRepr) -> (r: Result<usize, LoweringError>)
    ensures
        align_outcome(r) == graph_align(*ty),
    decreases ty, 1nat,
{
    match ty {
        TypeRepr::Bool | TypeRepr::Unit => Ok(1),
        TypeRepr::Int | TypeRepr::Float => Ok(8),
        TypeRepr::String | TypeRepr::List { .. } | TypeRepr::Schema { .. } => Ok(4),
        TypeRepr::Option { .. } | TypeRepr::Result { .. }
        | TypeRepr::Enum { .. } => variant_record_alignment_for_lowering(ty),
        TypeRepr::Closure => Err(reject_type(ty)),
    }
}

/// Executable form of [`variant_align`].
pub fn variant_record_alignment_for_lowering(ty: &TypeRepr) -> (r: Result<usize, LoweringError>)
    ensures
        align_outcome(r) == variant_align(*ty),
    decreases ty, 0nat,
{
    match ty {
        TypeRepr::Option { inner } => payload_alignment(inner, 4),
        TypeRepr::Result { ok, err } => match payload_alignment(ok, 4) {
            Err(e) => Err(e),
            Ok(a) => payload_alignment(err, a),
        },
        TypeRepr::Enum { variants, .. } => {
            let mut align: usize = 4;
            let mut i: usize = 0;
            assert(variants@.take(0) =~= Seq::empty());
            while i < variants.len()
                invariant
                    i <= variants.len(),
                    *ty is Enum,
                    ty->variants == *variants,
                    variants_align(variants@.take(i as int)) == Ok::<usize, ErrorView>(align),
                decreases variants.len() - i,
            {
                assert(variants@.take(i + 1).drop_last() =~= variants@.take(i as int));
                assert(variants@.take(i + 1).last() == variants@[i as int]);
                assert(decreases_to!(*ty => ty->variants));
                assert(decreases_to!(*variants => variants@));
                assert(decreases_to!(variants@ => variants@[i as int]));
                assert(decreases_to!(variants@[i as int] => variants@[i as int].payload));
                assert(variant_payload_align(variants@[i as int], align) == (
                match variants@[i as int].payload {
                    Some(p) => payload_align(*p, align),
                    None => Ok(align),
                }));
                match &variants[i].payload {
                    Some(p) => match payload_alignment(p, align) {
                        Err(e) => {
                            proof {
                                lemma_variants_align_prefix(variants@, i + 1);
                            }
                            return Err(e);
                        },
                        Ok(a) => {
                            align = a;
                        },
                    },
                    None => {},
                }
                i += 1;
            }
            assert(variants@.take(variants@.len() as int) =~= variants@);
            Ok(align)
        },
        _ => Err(reject_type(ty)),
    }
}

/// Alignments of variant records are four or eight.
pub proof fn law_variant_align_is_small(t: TypeRepr)
    ensures
        variant_align(t) matches Ok(a) ==> a == 4 || a == 8,
        graph_align(t) matches Ok(a) ==> a == 1 || a == 4 || a == 8,
        forall|align: usize|
            align == 4 || align == 8 ==> (#[trigger] payload_align(t, align) matches Ok(a) ==> a
                == 4 || a == 8),
    decreases t, 1nat,
{
    match t {
        TypeRepr::Option { inner } => {
            law_variant_align_is_small(*inner);
        },
        TypeRepr::Result { ok, err } => {
            law_variant_align_is_small(*ok);
            law_variant_align_is_small(*err);
        },
        TypeRepr::Enum { variants, .. } => {
            lemma_variants_align_is_small(variants@);
        },
        _ => {},
    }
    assert(variant_align(t) matches Ok(a) ==> a == 4 || a == 8);
    assert(graph_align(t) matches Ok(a) ==> a == 1 || a == 4 || a == 8);
    assert forall|align: usize| align == 4 || align == 8 implies (#[trigger] payload_align(
        t,
        align,
    ) matches Ok(a) ==> a == 4 || a == 8) by {
        match slot_layout(t) {
            Some((_, slot)) => {
                assert(slot == 1 || slot == 4 || slot == 8);
            },
            None => {},
        }
    }
}

proof fn lemma_variants_align_is_small(variants: Seq<EnumVariant>)
    ensures
        variants_align(variants) matches Ok(a) ==> a == 4 || a == 8,
    decreases variants, 0nat,
{
    if variants.len() > 0 {
        lemma_variants_align_is_small(variants.drop_last());
        match variants.last().payload {
            Some(p) => {
                assert(decreases_to!(variants => variants.last()));
                law_variant_align_is_small(*p);
                match variants_align(variants.drop_last()) {
                    Ok(a) => {
                        assert(payload_align(*p, a) matches Ok(b) ==> b == 4 || b == 8);
                        assert(variant_payload_align(variants.last(), a) == payload_align(*p, a));
                    },
                    Err(_) => {},
                }
            },
            None => {
                match variants_align(variants.drop_last()) {
                    Ok(a) => {
                        assert(variant_payload_align(variants.last(), a) == Ok::<usize, ErrorView>(
                            a,
                        ));
                    },
                    Err(_) => {},
                }
            },
        }
    }
}

/// The offset of the payload behind the one-byte tag.
pub open spec fn payload_offset(t: TypeRepr) -> Option<usize> {
    match slot_layout(t) {
        Some((_, align)) => Some(aligned_up(1, align)),
        None => None,
    }
}

/// Executable form of [`payload_offset`].
pub fn variant_payload_offset_for_lowering(payload_ty: &TypeRepr) -> (r: Result<
    usize,
    LoweringError,
>)
    ensures
        match r {
            Ok(o) => payload_offset(*payload_ty) == Some(o),
            Err(e) => payload_offset(*payload_ty) is None && e@ == unsupported_type(*payload_ty),
        },
{
    match payload_slot_layout_for_lowering(payload_ty) {
        Ok((_, align)) => Ok(align_up_for_lowering(1, align)),
        Err(e) => Err(e),
    }
}

/// The payload lies behind the tag, aligned for its slot: at its own alignment.
pub proof fn law_payload_offset(t: TypeRepr)
    ensures
        payload_offset(t) matches Some(o) ==> (slot_layout(t) matches Some((_, align)) && o
            == align && o >= 1),
{
    assert((1usize + 3) as usize & !3usize == 4) by (bit_vector);
    assert((1usize + 7) as usize & !7usize == 8) by (bit_vector);
}

// ---------------------------------------------------------------------------
// Constructors.
// ---------------------------------------------------------------------------

/// The fields of a constructor body, which must be a dictionary literal.
pub fn variant_body_pairs<'a>(body: &'a Node, range: TokenRange) -> (r: Result<
    &'a Vec<(TokenKey, Node)>,
    LoweringError,
>)
    ensures
        match (*body.expr) {
            Expr::Dict(pairs) => r matches Ok(p) && *p == pairs,
            other => r matches Err(e) && e@ == body_not_dict(other, range),
        },
{
    match &*body.expr {
        Expr::Dict(pairs) => Ok(pairs),
        other => Err(
            LoweringError::UnsupportedExpr {
                kind: join3(
                    "variant constructor body must be a dict literal, got `",
                    expr_kind_name(other),
                    "`",
                ),
                range,
            },
        ),
    }
}

/// The error for a constructor body that is not a dictionary.
pub open spec fn body_not_dict(expr: Expr, range: TokenRange) -> ErrorView {
    ErrorView::UnsupportedExpr {
        kind: "variant constructor body must be a dict literal, got `"@ + expr_kind(expr) + "`"@,
        range,
    }
}

/// The value of the single payload field among the first `n` fields: `None`
/// while it has not been seen.
pub open spec fn payload_value(
    pairs: Seq<(TokenKey, Node)>,
    key: Seq<char>,
    range: TokenRange,
) -> Result<Option<Node>, ErrorView>
    decreases pairs.len(),
{
    if pairs.len() == 0 {
        Ok(None)
    } else {
        match payload_value(pairs.drop_last(), key, range) {
            Err(e) => Err(e),
            Ok(found) => match pairs.last().0 {
                TokenKey::String(name, _, _) => if name@ != key {
                    Err(
                        ErrorView::UnsupportedExpr {
                            kind: "unexpected variant payload field `"@ + name@ + "`"@,
                            range,
                        },
                    )
                } else if found is Some {
                    Err(
                        ErrorView::UnsupportedExpr {
                            kind: "duplicate variant payload field `"@ + key + "`"@,
                            range,
                        },
                    )
                } else {
                    Ok(Some(pairs.last().1))
                },
                _ => Err(
                    ErrorView::UnsupportedExpr {
                        kind: "variant constructor field key must be a string identifier"@,
                        range,
                    },
                ),
            },
        }
    }
}

/// The payload of a constructor body: its single field, which must bear the
/// given name.
pub open spec fn payload_node(
    pairs: Seq<(TokenKey, Node)>,
    key: Seq<char>,
    range: TokenRange,
) -> Result<Node, ErrorView> {
    match payload_value(pairs, key, range) {
        Err(e) => Err(e),
        Ok(Some(node)) => Ok(node),
        Ok(None) => Err(
            ErrorView::UnsupportedExpr {
                kind: "missing variant payload field `"@ + key + "`"@,
                range,
            },
        ),
    }
}

proof fn lemma_payload_value_prefix(
    pairs: Seq<(TokenKey, Node)>,
    key: Seq<char>,
    range: TokenRange,
    k: int,
)
    requires
        0 <= k <= pairs.len(),
        payload_value(pairs.take(k), key, range) is Err,
    ensures
        payload_value(pairs, key, range) == payload_value(pairs.take(k), key, range),
    decreases pairs.len(),
{
    if k == pairs.len() {
        assert(pairs.take(k) =~= pairs);
    } else {
        assert(pairs.drop_last().take(k) =~= pairs.take(k));
        lemma_payload_value_prefix(pairs.drop_last(), key, range, k);
    }
}

/// The payload value is one of the field values.
pub proof fn lemma_payload_value_is_field(
    pairs: Seq<(TokenKey, Node)>,
    key: Seq<char>,
    range: TokenRange,
)
    ensures
        payload_value(pairs, key, range) matches Ok(Some(node)) ==> exists|i: int|
            0 <= i < pairs.len() && (#[trigger] pairs[i]).1 == node,
    decreases pairs.len(),
{
    if pairs.len() > 0 {
        lemma_payload_value_is_field(pairs.drop_last(), key, range);
        assert(pairs[pairs.len() - 1] == pairs.last());
        assert forall|i: int| 0 <= i < pairs.len() - 1 implies #[trigger] pairs[i]
            == pairs.drop_last()[i] by {}
    }
}

/// Finds the payload of a constructor body.
pub fn variant_payload_node<'a>(
    pairs: &'a Vec<(TokenKey, Node)>,
    key_name: &str,
    range: TokenRange,
) -> (r: Result<&'a Node, LoweringError>)
    ensures
        match r {
            Ok(n) => payload_node(pairs@, key_name@, range) == Ok::<Node, ErrorView>(*n),
            Err(e) => payload_node(pairs@, key_name@, range) == Err::<Node, ErrorView>(e@),
        },
{
    let mut found: Option<&Node> = None;
    let mut i: usize = 0;
    assert(pairs@.take(0) =~= Seq::empty());
    while i < pairs.len()
        invariant
            i <= pairs.len(),
            payload_value(pairs@.take(i as int), key_name@, range) == Ok::<Option<Node>, ErrorView>(
                match found {
                    Some(n) => Some(*n),
                    None => None,
                },
            ),
        decreases pairs.len() - i,
    {
        assert(pairs@.take(i + 1).drop_last() =~= pairs@.take(i as int));
        assert(pairs@.take(i + 1).last() == pairs@[i as int]);
        let pair = &pairs[i];
        let name: &String = match &pair.0 {
            TokenKey::String(name, _, _) => name,
            _ => {
                proof {
                    lemma_payload_value_prefix(pairs@, key_name@, range, i + 1);
                }
                return Err(
                    unsupported("variant constructor field key must be a string identifier", range),
                );
            },
        };
        if !same_text(name.as_str(), key_name) {
            proof {
                lemma_payload_value_prefix(pairs@, key_name@, range, i + 1);
            }
            return Err(
                LoweringError::UnsupportedExpr {
                    kind: join3("unexpected variant payload field `", name.as_str(), "`"),
                    range,
                },
            );
        }
        if found.is_some() {
            proof {
                lemma_payload_value_prefix(pairs@, key_name@, range, i + 1);
            }
            return Err(
                LoweringError::UnsupportedExpr {
                    kind: join3("duplicate variant payload field `", key_name, "`"),
                    range,
                },
            );
        }
        found = Some(&pair.1);
        i += 1;
    }
    assert(pairs@.take(pairs@.len() as int) =~= pairs@);
    match found {
        Some(n) => Ok(n),
        None => Err(
            LoweringError::UnsupportedExpr {
                kind: join3("missing variant payload field `", key_name, "`"),
                range,
            },
        ),
    }
}

/// The type is a variant type: its values are variant records.
pub open spec fn is_variant_type(t: TypeRepr) -> bool {
    t is Option || t is Result || t is Enum
}

/// Executable form of [`is_variant_type`].
pub fn variant_record_list_element(element: &TypeRepr) -> (r: bool)
    ensures
        r == is_variant_type(*element),
{
    match element {
        TypeRepr::Option { .. } | TypeRepr::Result { .. } | TypeRepr::Enum { .. } => true,
        _ => false,
    }
}

/// The type is a list of variant records.
pub open spec fn is_variant_list(t: TypeRepr) -> bool {
    t matches TypeRepr::List { element } && is_variant_type(*element)
}

fn expects_variant_list(t: &TypeRepr) -> (r: bool)
    ensures
        r == is_variant_list(*t),
{
    match t {
        TypeRepr::List { element } => variant_record_list_element(element),
        _ => false,
    }
}

/// A list literal where a list of variant records is expected.
pub fn variant_list_literal_for_type(expected: &TypeRepr, expr: &Expr) -> (r: bool)
    ensures
        r == (is_variant_list(*expected) && *expr is List),
{
    expects_variant_list(expected) && match expr {
        Expr::List(_) => true,
        _ => false,
    }
}

/// An expression that builds a list of variant records where one is expected:
/// a literal, a comprehension, or a call of `map` or `filter`.
pub fn variant_record_list_inplace_expr_for_type(expected: &TypeRepr, expr: &Expr) -> (r: bool)
    ensures
        r == (is_variant_list(*expected) && (*expr is List || *expr is Comprehension || (
        expr matches Expr::FnCall { path, .. } && list_hof_path(path@)))),
{
    if !expects_variant_list(expected) {
        return false;
    }
    match expr {
        Expr::List(_) | Expr::Comprehension { .. } => true,
        Expr::FnCall { path, .. } => is_list_hof_path(path),
        _ => false,
    }
}

/// The names of a path that consists of plain names only.
pub open spec fn path_names(path: Seq<TokenKey>) -> Option<Seq<Seq<char>>>
    decreases path.len(),
{
    if path.len() == 0 {
        Some(Seq::empty())
    } else {
        match (path_names(path.drop_last()), path.last()) {
            (Some(init), TokenKey::String(s, _, _)) => Some(init.push(s@)),
            _ => None,
        }
    }
}

proof fn lemma_path_names_prefix(path: Seq<TokenKey>, k: int)
    requires
        0 <= k <= path.len(),
        path_names(path.take(k)) is None,
    ensures
        path_names(path) is None,
    decreases path.len(),
{
    if k == path.len() {
        assert(path.take(k) =~= path);
    } else {
        assert(path.drop_last().take(k) =~= path.take(k));
        lemma_path_names_prefix(path.drop_last(), k);
    }
}

/// The texts of string slices.
pub open spec fn slices_view(v: Seq<&str>) -> Seq<Seq<char>> {
    Seq::new(v.len(), |i: int| v[i]@)
}

/// Executable form of [`path_names`].
pub fn path_strings<'a>(path: &'a Vec<TokenKey>) -> (r: Option<Vec<&'a str>>)
    ensures
        match r {
            Some(v) => path_names(path@) == Some(slices_view(v@)),
            None => path_names(path@) is None,
        },
{
    let mut out: Vec<&'a str> = Vec::new();
    let mut i: usize = 0;
    assert(path@.take(0) =~= Seq::empty());
    assert(slices_view(out@) =~= Seq::empty());
    while i < path.len()
        invariant
            i <= path.len(),
            path_names(path@.take(i as int)) == Some(slices_view(out@)),
        decreases path.len() - i,
    {
        assert(path@.take(i + 1).drop_last() =~= path@.take(i as int));
        assert(path@.take(i + 1).last() == path@[i as int]);
        match &path[i] {
            TokenKey::String(s, _, _) => {
                let ghost before = slices_view(out@);
                let text: &'a str = s.as_str();
                out.push(text);
                assert(slices_view(out@) =~= before.push(text@));
            },
            _ => {
                proof {
                    lemma_path_names_prefix(path@, i + 1);
                }
                return None;
            },
        }
        i += 1;
    }
    assert(path@.take(path@.len() as int) =~= path@);
    Some(out)
}

/// A written enum path fits the expected enum: it is absent, empty, or the one
/// expected name.
pub open spec fn enum_path_fits(name: Seq<char>, path: Option<Seq<Seq<char>>>) -> bool {
    match path {
        Some(p) => p.len() == 0 || (p.len() == 1 && p[0] == name),
        None => true,
    }
}

/// The texts of an optional path.
pub open spec fn path_view(path: Option<&Vec<String>>) -> Option<Seq<Seq<char>>> {
    match path {
        Some(p) => Some(texts(p@)),
        None => None,
    }
}

/// Executable form of [`enum_path_fits`].
pub fn enum_path_matches(expected_name: &str, enum_path: Option<&Vec<String>>) -> (r: bool)
    ensures
        r == enum_path_fits(expected_name@, path_view(enum_path)),
{
    match enum_path {
        Some(path) => path.len() == 0 || (path.len() == 1 && same_text(
            path[0].as_str(),
            expected_name,
        )),
        None => true,
    }
}

/// The least index at or behind `from` of a variant with the given name.
pub open spec fn variant_index(
    variants: Seq<EnumVariant>,
    name: Seq<char>,
    from: int,
) -> Option<int>
    decreases variants.len() - from,
{
    if from < 0 || from >= variants.len() {
        None
    } else if variants[from].name@ == name {
        Some(from)
    } else {
        variant_index(variants, name, from + 1)
    }
}

/// What is found is in range and bears the name.
pub proof fn lemma_variant_index(variants: Seq<EnumVariant>, name: Seq<char>, from: int)
    requires
        0 <= from,
    ensures
        variant_index(variants, name, from) matches Some(i) ==> from <= i < variants.len()
            && variants[i].name@ == name,
    decreases variants.len() - from,
{
    if from < variants.len() && variants[from].name@ != name {
        lemma_variant_index(variants, name, from + 1);
    }
}

/// The first variant with the given name.
pub fn find_variant<'a>(variants: &'a Vec<EnumVariant>, name: &str) -> (r: Option<&'a EnumVariant>)
    ensures
        match r {
            Some(v) => variant_index(variants@, name@, 0) matches Some(i) && 0 <= i
                < variants@.len() && variants@[i] == *v,
            None => variant_index(variants@, name@, 0) is None,
        },
{
    let mut i: usize = 0;
    while i < variants.len()
        invariant
            i <= variants.len(),
            variant_index(variants@, name@, i as int) == variant_index(variants@, name@, 0),
        decreases variants.len() - i,
    {
        if same_text(variants[i].name.as_str(), name) {
            return Some(&variants[i]);
        }
        i += 1;
    }
    None
}

/// The last of one or two names, the first of which must be the enum's.
pub open spec fn variant_part(parts: Seq<Seq<char>>, enum_name: Seq<char>) -> Option<Seq<char>> {
    if parts.len() == 1 {
        Some(parts[0])
    } else if parts.len() == 2 && parts[0] == enum_name {
        Some(parts[1])
    } else {
        None
    }
}

/// The variant that a path names where a variant type is expected. A path with
/// payload must name a variant that takes one, and a bare path one that does
/// not.
pub open spec fn variant_named(
    expected: TypeRepr,
    path: Seq<TokenKey>,
    with_payload: bool,
) -> Option<
    Seq<char>,
> {
    match path_names(path) {
        None => None,
        Some(parts) => match expected {
            TypeRepr::Option { .. } => match variant_part(parts, "Option"@) {
                Some(name) => if (name == "None"@ && !with_payload) || (name == "Some"@
                    && with_payload) {
                    Some(name)
                } else {
                    None
                },
                None => None,
            },
            TypeRepr::Result { .. } => match variant_part(parts, "Result"@) {
                Some(name) => if (name == "Ok"@ || name == "Err"@) && with_payload {
                    Some(name)
                } else {
                    None
                },
                None => None,
            },
            TypeRepr::Enum { name, variants } => match variant_part(parts, name@) {
                Some(v) => match variant_index(variants@, v, 0) {
                    Some(i) => if with_payload == (variants@[i].payload is Some) {
                        Some(v)
                    } else {
                        None
                    },
                    None => None,
                },
                None => None,
            },
            _ => None,
        },
    }
}

fn part_of<'a>(parts: &Vec<&'a str>, enum_name: &str) -> (r: Option<&'a str>)
    ensures
        match r {
            Some(t) => variant_part(slices_view(parts@), enum_name@) == Some(t@),
            None => variant_part(slices_view(parts@), enum_name@) is None,
        },
{
    if parts.len() == 1 {
        Some(parts[0])
    } else if parts.len() == 2 && same_text(parts[0], enum_name) {
        Some(parts[1])
    } else {
        None
    }
}

/// Executable form of [`variant_named`].
pub fn variant_name_from_path(
    expected: &TypeRepr,
    path: &Vec<TokenKey>,
    require_payload: bool,
) -> (r:
    Option<String>)
    ensures
        match r {
            Some(t) => variant_named(*expected, path@, require_payload) == Some(t@),
            None => variant_named(*expected, path@, require_payload) is None,
        },
{
    let parts = match path_strings(path) {
        Some(parts) => parts,
        None => {
            return None;
        },
    };
    match expected {
        TypeRepr::Option { .. } => match part_of(&parts, "Option") {
            Some(name) => if (same_text(name, "None") && !require_payload) || (same_text(
                name,
                "Some",
            ) && require_payload) {
                Some(name.to_owned())
            } else {
                None
            },
            None => None,
        },
        TypeRepr::Result { .. } => match part_of(&parts, "Result") {
            Some(name) => if (same_text(name, "Ok") || same_text(name, "Err")) && require_payload {
                Some(name.to_owned())
            } else {
                None
            },
            None => None,
        },
        TypeRepr::Enum { name, variants } => match part_of(&parts, name.as_str()) {
            Some(v) => match find_variant(variants, v) {
                Some(found) => if require_payload == found.payload.is_some() {
                    Some(v.to_owned())
                } else {
                    None
                },
                None => None,
            },
            None => None,
        },
        _ => None,
    }
}

/// The field that carries the payload of a builtin variant.
#[derive(Clone, Copy, Debug, PartialEq, Eq, Structural)]
pub enum PayloadKey {
    Value,
    Error,
}

impl PayloadKey {
    /// The field name as written.
    pub open spec fn text(self) -> Seq<char> {
        match self {
            PayloadKey::Value => "value"@,
            PayloadKey::Error => "error"@,
        }
    }

    /// Executable form of [`PayloadKey::text`].
    pub fn name(self) -> (r: &'static str)
        ensures
            r@ == self.text(),
    {
        match self {
            PayloadKey::Value => "value",
            PayloadKey::Error => "error",
        }
    }
}

/// The payload of a variant: its type, and for builtin variants the field that
/// carries it. The payload of an enum variant is the record of its fields.
#[derive(Clone, Copy, Debug, PartialEq, Eq)]
pub struct VariantPayloadShape<'a> {
    pub ty: &'a TypeRepr,
    pub key: Option<PayloadKey>,
}

/// Tag and payload of a variant.
#[derive(Clone, Copy, Debug, PartialEq, Eq)]
pub struct VariantShape<'a> {
    pub tag: u8,
    pub payload: Option<VariantPayloadShape<'a>>,
}

/// The message for a constructor of another enum.
pub open spec fn wrong_enum(
    name: Seq<char>,
    path: Option<Seq<Seq<char>>>,
    variant: Seq<char>,
) -> Seq<
    char,
> {
    let shown = match path {
        Some(p) => joined(p, "."@),
        None => Seq::empty(),
    };
    "expected "@ + name + " variant, got "@ + shown + "."@ + variant
}

/// The message for a name that is no variant.
pub open spec fn unknown_variant(name: Seq<char>, variant: Seq<char>) -> Seq<char> {
    "unknown "@ + name + " variant `"@ + variant + "`"@
}

/// The shape of a named variant of the expected type.
pub open spec fn variant_shape<'a>(
    expected: &'a TypeRepr,
    path: Option<Seq<Seq<char>>>,
    variant: Seq<char>,
    range: TokenRange,
) -> Result<VariantShape<'a>, ErrorView> {
    let fail = |kind: Seq<char>|
        Err::<VariantShape<'a>, ErrorView>(ErrorView::UnsupportedExpr { kind, range });
    let keyed = |tag: u8, ty: &'a TypeRepr, key: PayloadKey|
        Ok::<VariantShape<'a>, ErrorView>(
            VariantShape { tag, payload: Some(VariantPayloadShape { ty, key: Some(key) }) },
        );
    match expected {
        TypeRepr::Option { inner } => if !enum_path_fits("Option"@, path) {
            fail(wrong_enum("Option"@, path, variant))
        } else if variant == "None"@ {
            Ok(VariantShape { tag: 0, payload: None })
        } else if variant == "Some"@ {
            keyed(1, &**inner, PayloadKey::Value)
        } else {
            fail(unknown_variant("Option"@, variant))
        },
        TypeRepr::Result { ok, err } => if !enum_path_fits("Result"@, path) {
            fail(wrong_enum("Result"@, path, variant))
        } else if variant == "Ok"@ {
            keyed(0, &**ok, PayloadKey::Value)
        } else if variant == "Err"@ {
            keyed(1, &**err, PayloadKey::Error)
        } else {
            fail(unknown_variant("Result"@, variant))
        },
        TypeRepr::Enum { name, variants } => if !enum_path_fits(name@, path) {
            fail(wrong_enum(name@, path, variant))
        } else {
            match variant_index(variants@, variant, 0) {
                None => fail(unknown_variant(name@, variant)),
                Some(i) => Ok(
                    VariantShape {
                        tag: variants@[i].tag,
                        payload: match variants@[i].payload {
                            Some(p) => Some(VariantPayloadShape { ty: &*p, key: None }),
                            None => None,
                        },
                    },
                ),
            }
        },
        other => fail(
            "variant constructor needs enum target, got `"@ + type_text(type_view(*other)) + "`"@,
        ),
    }
}

fn reject_enum(name: &str, path: Option<&Vec<String>>, variant: &str, range: TokenRange) -> (e:
    LoweringError)
    ensures
        e@ == (ErrorView::UnsupportedExpr {
            kind: wrong_enum(name@, path_view(path), variant@),
            range,
        }),
{
    let shown: String = match path {
        Some(p) => join_texts(p, "."),
        None => String::new(),
    };
    let kind: String = join3("expected ", name, " variant, got ").concat(shown.as_str()).concat(
        ".",
    ).concat(variant);
    LoweringError::UnsupportedExpr { kind, range }
}

fn reject_variant(name: &str, variant: &str, range: TokenRange) -> (e: LoweringError)
    ensures
        e@ == (ErrorView::UnsupportedExpr { kind: unknown_variant(name@, variant@), range }),
{
    LoweringError::UnsupportedExpr {
        kind: join3("unknown ", name, " variant `").concat(variant).concat("`"),
        range,
    }
}

/// Executable form of [`variant_shape`].
pub fn standard_variant_shape<'a>(
    expected: &'a TypeRepr,
    enum_path: Option<&Vec<String>>,
    variant: &str,
    range: TokenRange,
) -> (r: Result<VariantShape<'a>, LoweringError>)
    ensures
        match r {
            Ok(s) => variant_shape(expected, path_view(enum_path), variant@, range) == Ok::<
                VariantShape<'a>,
                ErrorView,
            >(s),
            Err(e) => variant_shape(expected, path_view(enum_path), variant@, range) == Err::<
                VariantShape<'a>,
                ErrorView,
            >(e@),
        },
{
    match expected {
        TypeRepr::Option { inner } => {
            if !enum_path_matches("Option", enum_path) {
                return Err(reject_enum("Option", enum_path, variant, range));
            }
            if same_text(variant, "None") {
                Ok(VariantShape { tag: 0, payload: None })
            } else if same_text(variant, "Some") {
                Ok(
                    VariantShape {
                        tag: 1,
                        payload: Some(
                            VariantPayloadShape { ty: &**inner, key: Some(PayloadKey::Value) },
                        ),
                    },
                )
            } else {
                Err(reject_variant("Option", variant, range))
            }
        },
        TypeRepr::Result { ok, err } => {
            if !enum_path_matches("Result", enum_path) {
                return Err(reject_enum("Result", enum_path, variant, range));
            }
            if same_text(variant, "Ok") {
                Ok(
                    VariantShape {
                        tag: 0,
                        payload: Some(
                            VariantPayloadShape { ty: &**ok, key: Some(PayloadKey::Value) },
                        ),
                    },
                )
            } else if same_text(variant, "Err") {
                Ok(
                    VariantShape {
                        tag: 1,
                        payload: Some(
                            VariantPayloadShape { ty: &**err, key: Some(PayloadKey::Error) },
                        ),
                    },
                )
            } else {
                Err(reject_variant("Result", variant, range))
            }
        },
        TypeRepr::Enum { name, variants } => {
            if !enum_path_matches(name.as_str(), enum_path) {
                return Err(reject_enum(name.as_str(), enum_path, variant, range));
            }
            match find_variant(variants, variant) {
                None => Err(reject_variant(name.as_str(), variant, range)),
                Some(v) => {
                    let payload = match &v.payload {
                        Some(p) => Some(VariantPayloadShape { ty: &**p, key: None }),
                        None => None,
                    };
                    Ok(VariantShape { tag: v.tag, payload })
                },
            }
        },
        other => {
            let shown: String = describe_type(other);
            Err(
                LoweringError::UnsupportedExpr {
                    kind: join3(
                        "variant constructor needs enum target, got `",
                        shown.as_str(),
                        "`",
                    ),
                    range,
                },
            )
        },
    }
}

/// A variant named by a path always has a shape, and the shape takes a payload
/// exactly when the path was read with one.
pub proof fn law_named_variant_has_shape(
    expected: TypeRepr,
    path: Seq<TokenKey>,
    with_payload: bool,
    range: TokenRange,
)
    ensures
        variant_named(expected, path, with_payload) matches Some(name) ==> (variant_shape(
            &expected,
            None,
            name,
            range,
        ) matches Ok(shape) && (shape.payload is Some) == with_payload),
{
    reveal_strlit("None");
    reveal_strlit("Some");
    reveal_strlit("Ok");
    reveal_strlit("Err");
    assert("None"@[0] == 'N' && "Some"@[0] == 'S' && "Ok"@[0] == 'O' && "Err"@[0] == 'E');
}

/// Builtin tags tell their variants apart.
pub proof fn law_builtin_tags_distinct(
    expected: TypeRepr,
    a: Seq<char>,
    b: Seq<char>,
    range: TokenRange,
)
    requires
        expected is Option || expected is Result,
    ensures
        (variant_shape(&expected, None, a, range) matches Ok(x) && (variant_shape(
            &expected,
            None,
            b,
            range,
        ) matches Ok(y) && x.tag == y.tag)) ==> a == b,
{
}

} // verus!

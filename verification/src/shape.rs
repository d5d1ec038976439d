//! Which values the compiled return path may hand to the host in place, and
//! the instruction types of canonical types.

use vstd::prelude::*;
use vstd::slice::slice_subrange;

use crate::ast::{is_key, key_is, Expr, Node, TokenKey, TokenRange, TypeNode};
use crate::error::{ErrorView, LoweringError};
use crate::ir::IrType;
use crate::text::{same_text, text_is};
use crate::types::{describe_type, type_text, type_view, Field, Schema, TypeRepr, TypeView};

verus! {

// ---------------------------------------------------------------------------
// Instruction types.
// ---------------------------------------------------------------------------

/// Types stored through a pointer slot rather than inline: strings and lists.
pub open spec fn pointer_indirect(t: IrType) -> bool {
    t == IrType::String || t == IrType::ListInt || t == IrType::ListFloat || t == IrType::ListBool
        || pointer_array(t)
}

/// Executable form of [`pointer_indirect`].
pub fn pointer_indirect_ir_type(t: IrType) -> (r: bool)
    ensures
        r == pointer_indirect(t),
{
    match t {
        IrType::String | IrType::ListInt | IrType::ListFloat | IrType::ListBool
        | IrType::ListString | IrType::ListSchema | IrType::ListList => true,
        _ => false,
    }
}

/// List types whose record is an array of pointers to further records.
pub open spec fn pointer_array(t: IrType) -> bool {
    t == IrType::ListString || t == IrType::ListSchema || t == IrType::ListList
}

/// Executable form of [`pointer_array`].
pub fn pointer_array_list_ir_type(t: IrType) -> (r: bool)
    ensures
        r == pointer_array(t),
{
    match t {
        IrType::ListString | IrType::ListSchema | IrType::ListList => true,
        _ => false,
    }
}

/// The empty span at the start of the source.
pub open spec fn no_range() -> TokenRange {
    TokenRange { start: 0, end: 0 }
}

/// The error for a canonical type without a counterpart.
pub open spec fn unsupported_type(t: TypeRepr) -> ErrorView {
    ErrorView::UnsupportedTypeInMain { ty: type_text(type_view(t)), range: no_range() }
}

/// Executable form of [`unsupported_type`].
pub fn reject_type(t: &TypeRepr) -> (e: LoweringError)
    ensures
        e@ == unsupported_type(*t),
{
    LoweringError::UnsupportedTypeInMain {
        ty: describe_type(t),
        range: TokenRange { start: 0, end: 0 },
    }
}

/// The instruction type of a list with the given elements.
pub open spec fn list_ir_type(element: TypeRepr) -> Option<IrType> {
    match element {
        TypeRepr::Int => Some(IrType::ListInt),
        TypeRepr::Float => Some(IrType::ListFloat),
        TypeRepr::Bool => Some(IrType::ListBool),
        TypeRepr::String => Some(IrType::ListString),
        TypeRepr::Schema { .. } => Some(IrType::ListSchema),
        TypeRepr::List { .. } | TypeRepr::Option { .. } | TypeRepr::Result { .. }
        | TypeRepr::Enum { .. } => Some(IrType::ListList),
        TypeRepr::Unit | TypeRepr::Closure => None,
    }
}

/// Executable form of [`list_ir_type`].
pub fn list_element_ir_type(element: &TypeRepr) -> (r: Option<IrType>)
    ensures
        r == list_ir_type(*element),
{
    match element {
        TypeRepr::Int => Some(IrType::ListInt),
        TypeRepr::Float => Some(IrType::ListFloat),
        TypeRepr::Bool => Some(IrType::ListBool),
        TypeRepr::String => Some(IrType::ListString),
        TypeRepr::Schema { .. } => Some(IrType::ListSchema),
        TypeRepr::List { .. } | TypeRepr::Option { .. } | TypeRepr::Result { .. }
        | TypeRepr::Enum { .. } => Some(IrType::ListList),
        TypeRepr::Unit | TypeRepr::Closure => None,
    }
}

/// The instruction type of a canonical type; records and closures have none,
/// and variant types are pointers.
pub open spec fn ir_type_of(t: TypeRepr) -> Option<IrType> {
    match t {
        TypeRepr::Int => Some(IrType::I64),
        TypeRepr::Float => Some(IrType::F64),
        TypeRepr::Bool => Some(IrType::Bool),
        TypeRepr::Unit => Some(IrType::Unit),
        TypeRepr::String => Some(IrType::String),
        TypeRepr::List { element } => list_ir_type(*element),
        TypeRepr::Option { .. } | TypeRepr::Result { .. } | TypeRepr::Enum { .. } => Some(
            IrType::I32,
        ),
        TypeRepr::Schema { .. } | TypeRepr::Closure => None,
    }
}

/// [`ir_type_of`] by the mathematical value of a type.
pub open spec fn view_ir_type(t: TypeView) -> Option<IrType> {
    match t {
        TypeView::Int => Some(IrType::I64),
        TypeView::Float => Some(IrType::F64),
        TypeView::Bool => Some(IrType::Bool),
        TypeView::Unit => Some(IrType::Unit),
        TypeView::String => Some(IrType::String),
        TypeView::List { element } => match *element {
            TypeView::Int => Some(IrType::ListInt),
            TypeView::Float => Some(IrType::ListFloat),
            TypeView::Bool => Some(IrType::ListBool),
            TypeView::String => Some(IrType::ListString),
            TypeView::Schema { .. } => Some(IrType::ListSchema),
            TypeView::List { .. } | TypeView::Option { .. } | TypeView::Result { .. }
            | TypeView::Enum { .. } => Some(IrType::ListList),
            TypeView::Unit | TypeView::Closure => None,
        },
        TypeView::Option { .. } | TypeView::Result { .. } | TypeView::Enum { .. } => Some(
            IrType::I32,
        ),
        TypeView::Schema { .. } | TypeView::Closure => None,
    }
}

/// The instruction type depends on the mathematical value alone.
pub proof fn lemma_view_ir_type(t: TypeRepr)
    ensures
        view_ir_type(type_view(t)) == ir_type_of(t),
{
    reveal_with_fuel(type_view, 3);
}

/// Maps a canonical type to its instruction type.
pub fn type_repr_to_ir_type(t: &TypeRepr) -> (r: Result<IrType, LoweringError>)
    ensures
        match r {
            Ok(ty) => ir_type_of(*t) == Some(ty),
            Err(e) => ir_type_of(*t) is None && e@ == unsupported_type(*t),
        },
{
    match t {
        TypeRepr::Int => Ok(IrType::I64),
        TypeRepr::Float => Ok(IrType::F64),
        TypeRepr::Bool => Ok(IrType::Bool),
        TypeRepr::Unit => Ok(IrType::Unit),
        TypeRepr::String => Ok(IrType::String),
        TypeRepr::List { element } => match list_element_ir_type(element) {
            Some(ty) => Ok(ty),
            None => Err(reject_type(t)),
        },
        TypeRepr::Option { .. } | TypeRepr::Result { .. } | TypeRepr::Enum { .. } => Ok(
            IrType::I32,
        ),
        TypeRepr::Schema { .. } | TypeRepr::Closure => Err(reject_type(t)),
    }
}

/// The scalar instruction type that a name denotes.
pub open spec fn scalar_named(name: Seq<char>) -> Option<IrType> {
    if name == "Int"@ {
        Some(IrType::I64)
    } else if name == "Float"@ {
        Some(IrType::F64)
    } else if name == "Bool"@ {
        Some(IrType::Bool)
    } else if name == "String"@ {
        Some(IrType::String)
    } else {
        None
    }
}

fn scalar_by_name(name: &String) -> (r: Option<IrType>)
    ensures
        r == scalar_named(name@),
{
    if text_is(name, "Int") {
        Some(IrType::I64)
    } else if text_is(name, "Float") {
        Some(IrType::F64)
    } else if text_is(name, "Bool") {
        Some(IrType::Bool)
    } else if text_is(name, "String") {
        Some(IrType::String)
    } else {
        None
    }
}

/// The instruction type of a host-function type: a scalar or a list of
/// scalars, by the last segment of its name.
pub open spec fn native_ir_type(t: TypeNode) -> Option<IrType> {
    if t.path@.len() == 0 {
        None
    } else if scalar_named(t.path@.last()@) is Some {
        scalar_named(t.path@.last()@)
    } else if t.path@.last()@ == "List"@ && t.generics@.len() > 0 && t.generics@[0].path@.len()
        > 0 {
        match scalar_named(t.generics@[0].path@.last()@) {
            Some(IrType::I64) => Some(IrType::ListInt),
            Some(IrType::F64) => Some(IrType::ListFloat),
            Some(IrType::Bool) => Some(IrType::ListBool),
            Some(IrType::String) => Some(IrType::ListString),
            _ => None,
        }
    } else {
        None
    }
}

/// Executable form of [`native_ir_type`].
pub fn type_node_to_ir_type(t: &TypeNode) -> (r: Option<IrType>)
    ensures
        r == native_ir_type(*t),
{
    if t.path.len() == 0 {
        return None;
    }
    let name: &String = &t.path[t.path.len() - 1];
    match scalar_by_name(name) {
        Some(ty) => {
            return Some(ty);
        },
        None => {},
    }
    if !text_is(name, "List") || t.generics.len() == 0 || t.generics[0].path.len() == 0 {
        return None;
    }
    let elem: &TypeNode = &t.generics[0];
    match scalar_by_name(&elem.path[elem.path.len() - 1]) {
        Some(IrType::I64) => Some(IrType::ListInt),
        Some(IrType::F64) => Some(IrType::ListFloat),
        Some(IrType::Bool) => Some(IrType::ListBool),
        Some(IrType::String) => Some(IrType::ListString),
        _ => None,
    }
}

/// The canonical type that an instruction type stands for, where it is
/// unambiguous.
pub open spec fn repr_of_ir_type(t: IrType) -> Option<TypeRepr> {
    match t {
        IrType::I64 => Some(TypeRepr::Int),
        IrType::F64 => Some(TypeRepr::Float),
        IrType::Bool => Some(TypeRepr::Bool),
        IrType::Unit => Some(TypeRepr::Unit),
        IrType::String => Some(TypeRepr::String),
        IrType::ListInt => Some(TypeRepr::List { element: Box::new(TypeRepr::Int) }),
        IrType::ListFloat => Some(TypeRepr::List { element: Box::new(TypeRepr::Float) }),
        IrType::ListBool => Some(TypeRepr::List { element: Box::new(TypeRepr::Bool) }),
        IrType::ListString => Some(TypeRepr::List { element: Box::new(TypeRepr::String) }),
        _ => None,
    }
}

/// Executable form of [`repr_of_ir_type`].
pub fn ir_type_to_type_repr(t: IrType) -> (r: Option<TypeRepr>)
    ensures
        r == repr_of_ir_type(t),
{
    match t {
        IrType::I64 => Some(TypeRepr::Int),
        IrType::F64 => Some(TypeRepr::Float),
        IrType::Bool => Some(TypeRepr::Bool),
        IrType::Unit => Some(TypeRepr::Unit),
        IrType::String => Some(TypeRepr::String),
        IrType::ListInt => Some(TypeRepr::List { element: Box::new(TypeRepr::Int) }),
        IrType::ListFloat => Some(TypeRepr::List { element: Box::new(TypeRepr::Float) }),
        IrType::ListBool => Some(TypeRepr::List { element: Box::new(TypeRepr::Bool) }),
        IrType::ListString => Some(TypeRepr::List { element: Box::new(TypeRepr::String) }),
        _ => None,
    }
}

// ---------------------------------------------------------------------------
// Sources of returned lists.
// ---------------------------------------------------------------------------

/// Every element of the non-empty list is a string literal.
pub open spec fn const_string_list(expr: Expr) -> bool {
    match expr {
        Expr::List(items) => items@.len() > 0 && forall|i: int|
            0 <= i < items@.len() ==> *(#[trigger] items@[i]).expr is String,
        _ => false,
    }
}

/// The expression lowers to a pointer-array list in the constant pool.
pub fn pointer_array_list_source_is_const_pool(expr: &Expr) -> (r: bool)
    ensures
        r == const_string_list(*expr),
{
    match expr {
        Expr::List(items) => {
            if items.len() == 0 {
                return false;
            }
            let mut i: usize = 0;
            while i < items.len()
                invariant
                    i <= items.len(),
                    *expr == Expr::List(*items),
                    forall|k: int| 0 <= k < i ==> *(#[trigger] items@[k]).expr is String,
                decreases items.len() - i,
            {
                match &*items[i].expr {
                    Expr::String(_) => {},
                    _ => {
                        assert(!(*items@[i as int].expr is String));
                        return false;
                    },
                }
                i += 1;
            }
            true
        },
        _ => false,
    }
}

/// The expression is a bare name.
pub fn pointer_array_param_identity_walk(expr: &Expr) -> (r: bool)
    ensures
        r == (expr matches Expr::Variable(path) && path@.len() == 1),
{
    match expr {
        Expr::Variable(path) => path.len() == 1,
        _ => false,
    }
}

/// The segment is one of two plain names.
pub open spec fn key_is_either(key: TokenKey, a: Seq<char>, b: Seq<char>) -> bool {
    key matches TokenKey::String(s, _, _) && (s@ == a || s@ == b)
}

fn is_key_either(key: &TokenKey, a: &str, b: &str) -> (r: bool)
    ensures
        r == key_is_either(*key, a@, b@),
{
    match key {
        TokenKey::String(s, _, _) => same_text(s.as_str(), a) || same_text(s.as_str(), b),
        _ => false,
    }
}

/// A call of `map` or `filter`, free or as a method.
pub open spec fn list_hof_path(path: Seq<TokenKey>) -> bool {
    path.len() > 0 && (key_is_either(path[0], "_list_map"@, "_list_filter"@) || key_is_either(
        path.last(),
        "map"@,
        "filter"@,
    ))
}

/// Executable form of [`list_hof_path`].
pub fn is_list_hof_path(path: &Vec<TokenKey>) -> (r: bool)
    ensures
        r == list_hof_path(path@),
{
    path.len() > 0 && (is_key_either(&path[0], "_list_map", "_list_filter") || is_key_either(
        &path[path.len() - 1],
        "map",
        "filter",
    ))
}

/// The expression is a list comprehension or a call of `map` or `filter`.
pub fn string_result_list_hof_call(expr: &Expr) -> (r: bool)
    ensures
        r == (*expr is Comprehension || (expr matches Expr::FnCall { path, .. } && list_hof_path(
            path@,
        ))),
{
    match expr {
        Expr::Comprehension { .. } => true,
        Expr::FnCall { path, .. } => is_list_hof_path(path),
        _ => false,
    }
}

/// The expression is a call whose method is `split`.
pub fn string_split_call(expr: &Expr) -> (r: bool)
    ensures
        r == (expr matches Expr::FnCall { path, .. } && path@.len() > 0 && key_is(
            path@.last(),
            "split"@,
        )),
{
    match expr {
        Expr::FnCall { path, .. } => path.len() > 0 && is_key(
            &path[path.len() - 1],
            "split",
        ),
        _ => false,
    }
}

// ---------------------------------------------------------------------------
// The cross-region envelope.
// ---------------------------------------------------------------------------

/// A record whose fields are scalars, or lists with admitted elements.
pub open spec fn subrecord_ok(s: Schema) -> bool
    decreases s, 0nat,
{
    fields_ok(s.fields@)
}

/// All fields are scalars, or lists with admitted elements.
pub open spec fn fields_ok(fields: Seq<Field>) -> bool
    decreases fields, 0nat,
{
    if fields.len() == 0 {
        true
    } else {
        fields_ok(fields.drop_last()) && field_ok(fields.last())
    }
}

/// The field is a scalar, or a list with admitted elements.
pub open spec fn field_ok(f: Field) -> bool
    decreases f, 0nat,
{
    match f.ty {
        TypeRepr::Int | TypeRepr::Float | TypeRepr::Bool | TypeRepr::String => true,
        TypeRepr::List { element } => element_ok(*element),
        _ => false,
    }
}

/// The element type of a list that the host can follow from another region:
/// scalars and strings, lists of such, variants, and records in scope.
pub open spec fn element_ok(t: TypeRepr) -> bool
    decreases t, 0nat,
{
    match t {
        TypeRepr::String | TypeRepr::Int | TypeRepr::Float | TypeRepr::Bool => true,
        TypeRepr::Schema { schema } => subrecord_ok(*schema),
        TypeRepr::List { element } => element_ok(*element),
        TypeRepr::Option { .. } | TypeRepr::Result { .. } | TypeRepr::Enum { .. } => true,
        TypeRepr::Unit | TypeRepr::Closure => false,
    }
}

/// A list type whose elements are admitted.
pub open spec fn envelope(t: TypeRepr) -> bool {
    t matches TypeRepr::List { element } && element_ok(*element)
}

/// A list of records in scope.
pub open spec fn record_list_ok(t: TypeRepr) -> bool {
    t matches TypeRepr::List { element } && (*element matches TypeRepr::Schema { schema }
        && subrecord_ok(*schema))
}

/// A failing prefix of the fields fails the whole.
proof fn lemma_fields_prefix(fields: Seq<Field>, k: int)
    requires
        0 <= k <= fields.len(),
        !fields_ok(fields.take(k)),
    ensures
        !fields_ok(fields),
    decreases fields.len(),
{
    if k == fields.len() {
        assert(fields.take(k) =~= fields);
    } else {
        assert(fields.drop_last().take(k) =~= fields.take(k));
        lemma_fields_prefix(fields.drop_last(), k);
    }
}

fn is_subrecord_ok(s: &Schema) -> (r: bool)
    ensures
        r == subrecord_ok(*s),
    decreases s, 0nat,
{
    let mut i: usize = 0;
    assert(s.fields@.take(0) =~= Seq::empty());
    while i < s.fields.len()
        invariant
            i <= s.fields.len(),
            fields_ok(s.fields@.take(i as int)),
        decreases s.fields.len() - i,
    {
        assert(s.fields@.take(i + 1).drop_last() =~= s.fields@.take(i as int));
        assert(s.fields@.take(i + 1).last() == s.fields@[i as int]);
        assert(decreases_to!(*s => s.fields));
        assert(decreases_to!(s.fields => s.fields@));
        assert(decreases_to!(s.fields@ => s.fields@[i as int]));
        assert(decreases_to!(s.fields@[i as int] => s.fields@[i as int].ty));
        let ok: bool = match &s.fields[i].ty {
            TypeRepr::Int | TypeRepr::Float | TypeRepr::Bool | TypeRepr::String => true,
            TypeRepr::List { element } => cross_region_list_element_ok(element),
            _ => false,
        };
        assert(ok == field_ok(s.fields@[i as int]));
        if !ok {
            proof {
                lemma_fields_prefix(s.fields@, i + 1);
            }
            return false;
        }
        i += 1;
    }
    assert(s.fields@.take(s.fields@.len() as int) =~= s.fields@);
    true
}

/// Executable form of [`element_ok`].
pub fn cross_region_list_element_ok(element: &TypeRepr) -> (r: bool)
    ensures
        r == element_ok(*element),
    decreases element, 0nat,
{
    match element {
        TypeRepr::String | TypeRepr::Int | TypeRepr::Float | TypeRepr::Bool => true,
        TypeRepr::Schema { schema } => is_subrecord_ok(schema),
        TypeRepr::List { element: inner } => cross_region_list_element_ok(inner),
        TypeRepr::Option { .. } | TypeRepr::Result { .. } | TypeRepr::Enum { .. } => true,
        TypeRepr::Unit | TypeRepr::Closure => false,
    }
}

/// Executable form of [`envelope`].
pub fn cross_region_list_envelope(ty: &TypeRepr) -> (r: bool)
    ensures
        r == envelope(*ty),
{
    match ty {
        TypeRepr::List { element } => cross_region_list_element_ok(element),
        _ => false,
    }
}

/// Executable form of [`record_list_ok`].
pub fn list_schema_subrecord_in_s4_scope(ty: &TypeRepr) -> (r: bool)
    ensures
        r == record_list_ok(*ty),
{
    match ty {
        TypeRepr::List { element } => match &**element {
            TypeRepr::Schema { schema } => is_subrecord_ok(schema),
            _ => false,
        },
        _ => false,
    }
}

/// The least index at or behind `from` of a field with the given name.
pub open spec fn field_index(fields: Seq<Field>, name: Seq<char>, from: int) -> Option<int>
    decreases fields.len() - from,
{
    if from < 0 || from >= fields.len() {
        None
    } else if fields[from].name@ == name {
        Some(from)
    } else {
        field_index(fields, name, from + 1)
    }
}

/// The first field with the given name.
pub fn find_field<'a>(fields: &'a Vec<Field>, name: &String) -> (r: Option<&'a Field>)
    ensures
        match r {
            Some(f) => field_index(fields@, name@, 0) matches Some(i) && 0 <= i < fields@.len()
                && fields@[i] == *f,
            None => field_index(fields@, name@, 0) is None,
        },
{
    let mut i: usize = 0;
    while i < fields.len()
        invariant
            i <= fields.len(),
            field_index(fields@, name@, i as int) == field_index(fields@, name@, 0),
        decreases fields.len() - i,
    {
        if fields[i].name == *name {
            return Some(&fields[i]);
        }
        i += 1;
    }
    None
}

/// The leaf type of a field chain: every segment but the last names a record
/// field, and the last names a list inside the envelope.
pub open spec fn field_chain(base: TypeRepr, segs: Seq<TokenKey>) -> Option<TypeRepr>
    decreases segs.len(),
{
    if segs.len() == 0 {
        None
    } else {
        match (segs[0], base) {
            (TokenKey::String(name, _, _), TypeRepr::Schema { schema }) => match field_index(
                schema.fields@,
                name@,
                0,
            ) {
                Some(i) => if segs.len() == 1 {
                    if envelope(schema.fields@[i].ty) {
                        Some(schema.fields@[i].ty)
                    } else {
                        None
                    }
                } else {
                    field_chain(schema.fields@[i].ty, segs.drop_first())
                },
                None => None,
            },
            _ => None,
        }
    }
}

/// Executable form of [`field_chain`].
pub fn cross_region_param_field_chain<'s>(base: &'s TypeRepr, segs: &[TokenKey]) -> (r: Option<
    &'s TypeRepr,
>)
    ensures
        match r {
            Some(t) => field_chain(*base, segs@) == Some(*t),
            None => field_chain(*base, segs@) is None,
        },
    decreases segs@.len(),
{
    if segs.len() == 0 {
        return None;
    }
    match (&segs[0], base) {
        (TokenKey::String(name, _, _), TypeRepr::Schema { schema }) => match find_field(
            &schema.fields,
            name,
        ) {
            Some(field) => {
                if segs.len() == 1 {
                    return if cross_region_list_envelope(&field.ty) {
                        Some(&field.ty)
                    } else {
                        None
                    };
                }
                let rest = slice_subrange(segs, 1, segs.len());
                assert(rest@ =~= segs@.drop_first());
                cross_region_param_field_chain(&field.ty, rest)
            },
            None => None,
        },
        _ => None,
    }
}

/// The leaf list type of a walk `param.field..` into the entry parameters.
pub open spec fn param_field_walk(expr: Expr, main: Schema) -> Option<TypeRepr> {
    match expr {
        Expr::Variable(path) => if path@.len() >= 2 && path@[0] is String {
            match field_index(main.fields@, path@[0]->String_0@, 0) {
                Some(i) => field_chain(main.fields@[i].ty, path@.drop_first()),
                None => None,
            }
        } else {
            None
        },
        _ => None,
    }
}

/// Executable form of [`param_field_walk`].
pub fn pointer_array_param_field_walk<'s>(expr: &Expr, main_schema: &'s Schema) -> (r: Option<
    &'s TypeRepr,
>)
    ensures
        match r {
            Some(t) => param_field_walk(*expr, *main_schema) == Some(*t),
            None => param_field_walk(*expr, *main_schema) is None,
        },
{
    match expr {
        Expr::Variable(path) => {
            if path.len() < 2 {
                return None;
            }
            match &path[0] {
                TokenKey::String(p, _, _) => match find_field(&main_schema.fields, p) {
                    Some(param) => {
                        let rest = slice_subrange(path.as_slice(), 1, path.len());
                        assert(rest@ =~= path@.drop_first());
                        cross_region_param_field_chain(&param.ty, rest)
                    },
                    None => None,
                },
                _ => None,
            }
        },
        _ => None,
    }
}

/// The list type that a path into the named parameters reaches: the parameter
/// itself when it is a list inside the envelope, or the leaf of a field chain.
pub open spec fn param_list(path: Seq<TokenKey>, params: Seq<Field>) -> Option<TypeRepr> {
    if path.len() == 0 || !(path[0] is String) {
        None
    } else {
        match field_index(params, path[0]->String_0@, 0) {
            Some(i) => if path.len() == 1 {
                if envelope(params[i].ty) {
                    Some(params[i].ty)
                } else {
                    None
                }
            } else {
                field_chain(params[i].ty, path.drop_first())
            },
            None => None,
        }
    }
}

/// Executable form of [`param_list`].
pub fn anon_dict_cross_region_param_list<'p>(path: &Vec<TokenKey>, params: &'p Vec<Field>) -> (r:
    Option<&'p TypeRepr>)
    ensures
        match r {
            Some(t) => param_list(path@, params@) == Some(*t),
            None => param_list(path@, params@) is None,
        },
{
    if path.len() == 0 {
        return None;
    }
    match &path[0] {
        TokenKey::String(name, _, _) => match find_field(params, name) {
            Some(param) => {
                if path.len() == 1 {
                    return if cross_region_list_envelope(&param.ty) {
                        Some(&param.ty)
                    } else {
                        None
                    };
                }
                let rest = slice_subrange(path.as_slice(), 1, path.len());
                assert(rest@ =~= path@.drop_first());
                cross_region_param_field_chain(&param.ty, rest)
            },
            None => None,
        },
        _ => None,
    }
}

/// A named entry parameter: its slot in the parameter record and its types.
#[derive(Debug, PartialEq, Eq)]
pub struct LocalBinding<'a> {
    pub name: String,
    pub ty: IrType,
    pub offset: u32,
    pub schema_brand: Option<String>,
    pub type_repr: &'a TypeRepr,
}

/// The least index at or behind `from` of a parameter with the given name.
pub open spec fn binding_index(
    params: Seq<LocalBinding<'_>>,
    name: Seq<char>,
    from: int,
) -> Option<int>
    decreases params.len() - from,
{
    if from < 0 || from >= params.len() {
        None
    } else if params[from].name@ == name {
        Some(from)
    } else {
        binding_index(params, name, from + 1)
    }
}

/// The first parameter with the given name.
pub fn find_binding<'a, 't>(params: &'a Vec<LocalBinding<'t>>, name: &String) -> (r: Option<
    &'a LocalBinding<'t>,
>)
    ensures
        match r {
            Some(b) => binding_index(params@, name@, 0) matches Some(i) && 0 <= i < params@.len()
                && params@[i] == *b,
            None => binding_index(params@, name@, 0) is None,
        },
{
    let mut i: usize = 0;
    while i < params.len()
        invariant
            i <= params.len(),
            binding_index(params@, name@, i as int) == binding_index(params@, name@, 0),
        decreases params.len() - i,
    {
        if params[i].name == *name {
            return Some(&params[i]);
        }
        i += 1;
    }
    None
}

/// A record field of a list type inside the envelope whose value is a
/// parameter, or a field chain into a record parameter, of that list type.
pub open spec fn branded_param_list(
    field_ty: TypeRepr,
    value: Node,
    params: Seq<LocalBinding<'_>>,
) -> bool {
    envelope(field_ty) && match (list_ir_type(*field_ty->element), *value.expr) {
        (Some(ir), Expr::Variable(path)) => path@.len() > 0 && path@[0] is String && (
        if path@.len() == 1 {
            exists|i: int|
                0 <= i < params.len() && (#[trigger] params[i]).name@ == path@[0]->String_0@
                    && params[i].ty == ir
        } else {
            match binding_index(params, path@[0]->String_0@, 0) {
                Some(i) => match field_chain(*params[i].type_repr, path@.drop_first()) {
                    Some(leaf) => ir_type_of(leaf) == Some(ir),
                    None => false,
                },
                None => false,
            }
        }),
        _ => false,
    }
}

/// Executable form of [`branded_param_list`].
pub fn branded_field_cross_region_param_list(
    field_ty: &TypeRepr,
    value: &Node,
    params: &Vec<LocalBinding<'_>>,
) -> (r: bool)
    ensures
        r == branded_param_list(*field_ty, *value, params@),
{
    if !cross_region_list_envelope(field_ty) {
        return false;
    }
    let field_ir = match field_ty {
        TypeRepr::List { element } => match list_element_ir_type(element) {
            Some(ir) => ir,
            None => {
                return false;
            },
        },
        _ => {
            return false;
        },
    };
    match &*value.expr {
        Expr::Variable(path) => {
            if path.len() == 0 {
                return false;
            }
            let head: &String = match &path[0] {
                TokenKey::String(s, _, _) => s,
                _ => {
                    return false;
                },
            };
            if path.len() == 1 {
                return has_param_of_type(params, head, field_ir);
            }
            match find_binding(params, head) {
                Some(b) => {
                    let rest = slice_subrange(path.as_slice(), 1, path.len());
                    assert(rest@ =~= path@.drop_first());
                    match cross_region_param_field_chain(b.type_repr, rest) {
                        Some(leaf) => match type_repr_to_ir_type(leaf) {
                            Ok(ir) => ir == field_ir,
                            Err(_) => false,
                        },
                        None => false,
                    }
                },
                None => false,
            }
        },
        _ => false,
    }
}

fn has_param_of_type(params: &Vec<LocalBinding<'_>>, name: &String, ty: IrType) -> (r: bool)
    ensures
        r == (exists|i: int|
            0 <= i < params@.len() && (#[trigger] params@[i]).name@ == name@ && params@[i].ty
                == ty),
{
    let mut i: usize = 0;
    while i < params.len()
        invariant
            i <= params.len(),
            forall|k: int|
                0 <= k < i ==> !((#[trigger] params@[k]).name@ == name@ && params@[k].ty == ty),
        decreases params.len() - i,
    {
        if params[i].name == *name && params[i].ty == ty {
            assert(params@[i as int].name@ == name@);
            return true;
        }
        i += 1;
    }
    false
}

// ---------------------------------------------------------------------------
// Laws.
// ---------------------------------------------------------------------------

/// Pointer-array lists are stored through pointers, and of the lists exactly
/// those of plain scalars are not pointer arrays.
pub proof fn law_pointer_arrays_are_indirect(t: IrType)
    ensures
        pointer_array(t) ==> pointer_indirect(t),
        pointer_indirect(t) && !pointer_array(t) ==> t == IrType::String || t == IrType::ListInt
            || t == IrType::ListFloat || t == IrType::ListBool,
{
}

/// Going from an instruction type to its canonical type and back gives the
/// same instruction type.
pub proof fn law_ir_type_round_trip(t: IrType)
    ensures
        repr_of_ir_type(t) matches Some(r) ==> ir_type_of(r) == Some(t),
{
}

/// Everything inside the envelope has a list instruction type.
pub proof fn law_envelope_has_list_type(t: TypeRepr)
    ensures
        envelope(t) ==> (ir_type_of(t) matches Some(ty) && pointer_indirect(ty) && ty
            != IrType::String),
{
}

/// For a list of records the envelope and the record-scope test agree.
pub proof fn law_record_list_scope_agrees(schema: Schema)
    ensures
        ({
            let t = TypeRepr::List { element: Box::new(TypeRepr::Schema { schema: Box::new(schema) }) };
            envelope(t) == record_list_ok(t)
        }),
{
}

/// Nesting a list in a list changes nothing about its admission.
pub proof fn law_envelope_nests(t: TypeRepr)
    ensures
        t is List ==> envelope(TypeRepr::List { element: Box::new(t) }) == envelope(t),
{
}

/// What a field chain reaches is a list inside the envelope.
pub proof fn law_field_chain_reaches_envelope(base: TypeRepr, segs: Seq<TokenKey>)
    ensures
        field_chain(base, segs) matches Some(leaf) ==> envelope(leaf),
    decreases segs.len(),
{
    if segs.len() > 1 {
        match (segs[0], base) {
            (TokenKey::String(name, _, _), TypeRepr::Schema { schema }) => {
                match field_index(schema.fields@, name@, 0) {
                    Some(i) => {
                        law_field_chain_reaches_envelope(
                            schema.fields@[i].ty,
                            segs.drop_first(),
                        );
                    },
                    None => {},
                }
            },
            _ => {},
        }
    }
}

} // verus!

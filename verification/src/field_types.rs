//! The types of the fields of a returned dictionary, as far as they can be
//! told from the literal.

use vstd::prelude::*;

use crate::ast::{
    expr_kind, expr_kind_name, is_key, key_is, path_display, path_text, plain_name, single_name,
    Expr, Node, Operator, RefBase, TokenKey, TokenRange,
};
use crate::canonical::{join_texts, joined, table_index, SchemaTable};
use crate::error::{place_error, placed, ErrorView, LoweringError};
use crate::field_refs::field_base;
use crate::ir::{texts, IrType};
use crate::names::{among, is_among, NameTable};
use crate::shape::{ir_type_to_type_repr, repr_of_ir_type};
use crate::text::{join2, join3, same_text, text_is};
use crate::types::{copy_type, type_view, TypeRepr, TypeView};
use crate::variant::{
    body_not_dict, path_names, path_strings, payload_node, slices_view, variant_body_pairs,
    variant_payload_node,
};
use crate::workspace::SchemaDef;

verus! {

// ---------------------------------------------------------------------------
// Diagnostics.
// ---------------------------------------------------------------------------

/// The error for a field of the returned record that cannot be typed.
pub open spec fn bad_field(field: Seq<char>, ty: Seq<char>, range: TokenRange) -> ErrorView {
    ErrorView::UnsupportedFieldType { schema: "Ret"@, field, ty, range }
}

/// Executable form of [`bad_field`].
pub fn field_error(field: &str, ty: String, range: TokenRange) -> (e: LoweringError)
    ensures
        e@ == bad_field(field@, ty@, range),
{
    LoweringError::UnsupportedFieldType {
        schema: "Ret".to_owned(),
        field: field.to_owned(),
        ty,
        range,
    }
}

/// The error for a field value of an unsupported form; `head` names what the
/// field is, `tail` what is wrong with it.
pub open spec fn bad_value(
    head: Seq<char>,
    field: Seq<char>,
    tail: Seq<char>,
    range: TokenRange,
) -> ErrorView {
    ErrorView::UnsupportedExpr {
        kind: "AnonDictReturn("@ + head + field + "`: "@ + tail + ")"@,
        range,
    }
}

/// Executable form of [`bad_value`].
pub fn value_error(head: &str, field: &str, tail: &str, range: TokenRange) -> (e: LoweringError)
    ensures
        e@ == bad_value(head@, field@, tail@, range),
{
    LoweringError::UnsupportedExpr {
        kind: join3("AnonDictReturn(", head, field).concat("`: ").concat(tail).concat(")"),
        range,
    }
}

// ---------------------------------------------------------------------------
// Literal tables.
// ---------------------------------------------------------------------------

/// What has been read, followed by the rest, unless that fails.
pub open spec fn prepended<T>(done: Seq<T>, rest: Result<Seq<T>, ErrorView>) -> Result<
    Seq<T>,
    ErrorView,
> {
    match rest {
        Ok(r) => Ok(done + r),
        Err(e) => Err(e),
    }
}

/// The entries at and behind `from` of a dictionary of integer literals.
pub open spec fn int_entries(
    pairs: Seq<(TokenKey, Node)>,
    range: TokenRange,
    field: Seq<char>,
    from: int,
) -> Result<Seq<(Seq<char>, i64)>, ErrorView>
    decreases pairs.len() - from,
{
    if from < 0 || from >= pairs.len() {
        Ok(Seq::empty())
    } else {
        match pairs[from].0 {
            TokenKey::String(key, _, _) => match *pairs[from].1.expr {
                Expr::Int(v) => prepended(
                    seq![(key@, v)],
                    int_entries(pairs, range, field, from + 1),
                ),
                other => Err(
                    bad_value(
                        "dict field `"@,
                        field,
                        "value for key `"@ + key@ + "` is `"@ + expr_kind(other)
                            + "`, only Int literals supported in P1"@,
                        pairs[from].1.range,
                    ),
                ),
            },
            _ => Err(bad_value("dict field `"@, field, "non-string dict key"@, range)),
        }
    }
}

/// The mathematical value of dictionary entries.
pub open spec fn entries_view(entries: Seq<(String, i64)>) -> Seq<(Seq<char>, i64)> {
    Seq::new(entries.len(), |i: int| (entries[i].0@, entries[i].1))
}

/// Reads a dictionary of integer literals.
pub fn classify_anon_dict_str_int_field(
    pairs: &Vec<(TokenKey, Node)>,
    range: TokenRange,
    field_name: &str,
) -> (r: Result<Vec<(String, i64)>, LoweringError>)
    ensures
        match r {
            Ok(entries) => int_entries(pairs@, range, field_name@, 0) == Ok::<
                Seq<(Seq<char>, i64)>,
                ErrorView,
            >(entries_view(entries@)),
            Err(e) => int_entries(pairs@, range, field_name@, 0) == Err::<
                Seq<(Seq<char>, i64)>,
                ErrorView,
            >(e@),
        },
{
    let mut entries: Vec<(String, i64)> = Vec::new();
    let mut i: usize = 0;
    let ghost whole = int_entries(pairs@, range, field_name@, 0);
    assert(prepended(entries_view(entries@), whole) == whole) by {
        match whole {
            Ok(r) => {
                assert(entries_view(entries@) + r =~= r);
            },
            Err(_) => {},
        }
    }
    while i < pairs.len()
        invariant
            i <= pairs.len(),
            whole == prepended(
                entries_view(entries@),
                int_entries(pairs@, range, field_name@, i as int),
            ),
            whole == int_entries(pairs@, range, field_name@, 0),
        decreases pairs.len() - i,
    {
        let pair = &pairs[i];
        match &pair.0 {
            TokenKey::String(key, _, _) => match &*pair.1.expr {
                Expr::Int(v) => {
                    let ghost before = entries_view(entries@);
                    entries.push((key.clone(), *v));
                    proof {
                        assert(entries_view(entries@) =~= before + seq![(key@, *v)]);
                        match int_entries(pairs@, range, field_name@, i + 1) {
                            Ok(r) => {
                                assert(before + (seq![(key@, *v)] + r) =~= entries_view(entries@)
                                    + r);
                            },
                            Err(_) => {},
                        }
                    }
                },
                other => {
                    let tail: String = join3("value for key `", key.as_str(), "` is `").concat(
                        expr_kind_name(other),
                    ).concat("`, only Int literals supported in P1");
                    return Err(
                        value_error("dict field `", field_name, tail.as_str(), pair.1.range),
                    );
                },
            },
            _ => {
                return Err(value_error("dict field `", field_name, "non-string dict key", range));
            },
        }
        i += 1;
    }
    assert(entries_view(entries@) + Seq::empty() =~= entries_view(entries@));
    Ok(entries)
}

/// The elements at and behind `from` of a list of string literals.
pub open spec fn string_elements(
    items: Seq<Node>,
    range: TokenRange,
    field: Seq<char>,
    from: int,
) -> Result<Seq<Seq<char>>, ErrorView>
    decreases items.len() - from,
{
    if from < 0 || from >= items.len() {
        Ok(Seq::empty())
    } else {
        match *items[from].expr {
            Expr::String(s) => prepended(
                seq![s@],
                string_elements(items, range, field, from + 1),
            ),
            other => Err(
                bad_value(
                    "list field `"@,
                    field,
                    "element `"@ + expr_kind(other) + "`, only String literals supported"@,
                    range,
                ),
            ),
        }
    }
}

/// Reads a list of string literals.
pub fn classify_anon_dict_list_string_field(
    items: &Vec<Node>,
    range: TokenRange,
    field_name: &str,
) -> (r: Result<Vec<String>, LoweringError>)
    ensures
        match r {
            Ok(elements) => string_elements(items@, range, field_name@, 0) == Ok::<
                Seq<Seq<char>>,
                ErrorView,
            >(texts(elements@)),
            Err(e) => string_elements(items@, range, field_name@, 0) == Err::<
                Seq<Seq<char>>,
                ErrorView,
            >(e@),
        },
{
    let mut elements: Vec<String> = Vec::new();
    let mut i: usize = 0;
    let ghost whole = string_elements(items@, range, field_name@, 0);
    assert(prepended(texts(elements@), whole) == whole) by {
        match whole {
            Ok(r) => {
                assert(texts(elements@) + r =~= r);
            },
            Err(_) => {},
        }
    }
    while i < items.len()
        invariant
            i <= items.len(),
            whole == prepended(
                texts(elements@),
                string_elements(items@, range, field_name@, i as int),
            ),
            whole == string_elements(items@, range, field_name@, 0),
        decreases items.len() - i,
    {
        match &*items[i].expr {
            Expr::String(s) => {
                let ghost before = texts(elements@);
                elements.push(s.clone());
                proof {
                    assert(texts(elements@) =~= before + seq![s@]);
                    match string_elements(items@, range, field_name@, i + 1) {
                        Ok(r) => {
                            assert(before + (seq![s@] + r) =~= texts(elements@) + r);
                        },
                        Err(_) => {},
                    }
                }
            },
            other => {
                let tail: String = join3(
                    "element `",
                    expr_kind_name(other),
                    "`, only String literals supported",
                );
                return Err(value_error("list field `", field_name, tail.as_str(), range));
            },
        }
        i += 1;
    }
    assert(texts(elements@) + Seq::empty() =~= texts(elements@));
    Ok(elements)
}

/// The value bears the directive that hides it from the host.
pub open spec fn marked_internal(node: Node) -> bool {
    exists|i: int|
        0 <= i < node.directives@.len() && (#[trigger] node.directives@[i]).name@ == "internal"@
}

/// Executable form of [`marked_internal`].
pub fn node_marked_internal(node: &Node) -> (r: bool)
    ensures
        r == marked_internal(*node),
{
    let mut i: usize = 0;
    while i < node.directives.len()
        invariant
            i <= node.directives@.len(),
            forall|k: int|
                0 <= k < i ==> (#[trigger] node.directives@[k]).name@ != "internal"@,
        decreases node.directives@.len() - i,
    {
        if text_is(&node.directives[i].name, "internal") {
            assert(node.directives@[i as int].name@ == "internal"@);
            return true;
        }
        i += 1;
    }
    false
}

// ---------------------------------------------------------------------------
// Scalars.
// ---------------------------------------------------------------------------

/// What is known of the names in a field value: the types of the entry
/// parameters, of the results of closure fields and of the other fields, and
/// which fields are dictionaries.
pub struct FieldScope {
    pub params: NameTable<IrType>,
    pub closures: NameTable<IrType>,
    pub dicts: Vec<String>,
    pub fields: NameTable<IrType>,
}

/// The mathematical value of a [`FieldScope`].
pub ghost struct FieldEnv {
    pub params: Map<Seq<char>, IrType>,
    pub closures: Map<Seq<char>, IrType>,
    pub dicts: Seq<String>,
    pub fields: Map<Seq<char>, IrType>,
}

impl View for FieldScope {
    type V = FieldEnv;

    open spec fn view(&self) -> FieldEnv {
        FieldEnv {
            params: self.params.as_map(),
            closures: self.closures.as_map(),
            dicts: self.dicts@,
            fields: self.fields.as_map(),
        }
    }
}

impl FieldScope {
    /// No name occurs twice in a table.
    pub open spec fn wf(self) -> bool {
        self.params.wf() && self.closures.wf() && self.fields.wf()
    }
}

/// The type of a name in a map.
pub open spec fn typed_name(map: Map<Seq<char>, IrType>, name: Option<Seq<char>>) -> Option<
    IrType,
> {
    match name {
        Some(n) => if map.contains_key(n) {
            Some(map[n])
        } else {
            None
        },
        None => None,
    }
}

fn name_type(table: &NameTable<IrType>, name: Option<&String>) -> (r: Option<IrType>)
    ensures
        r == typed_name(
            table.as_map(),
            match name {
                Some(n) => Some(n@),
                None => None,
            },
        ),
{
    match name {
        Some(n) => match table.lookup(n.as_str()) {
            Some(t) => Some(*t),
            None => None,
        },
        None => None,
    }
}

/// The path is `d[k]` for one of the dictionaries `d`.
pub open spec fn dict_probe(path: Seq<TokenKey>, dicts: Seq<String>) -> bool {
    &&& path.len() == 2
    &&& (path[0] matches TokenKey::String(name, _, _) && among(dicts, name@))
    &&& path[1] matches TokenKey::Dynamic(_, optional) && !optional
}

fn is_dict_probe(path: &Vec<TokenKey>, dicts: &Vec<String>) -> (r: bool)
    ensures
        r == dict_probe(path@, dicts@),
{
    if path.len() != 2 {
        return false;
    }
    match (&path[0], &path[1]) {
        (TokenKey::String(name, _, _), TokenKey::Dynamic(_, optional)) => !*optional && is_among(
            dicts,
            name.as_str(),
        ),
        _ => false,
    }
}

/// The operator is one of the arithmetic of fields.
pub open spec fn arithmetic(op: Operator) -> bool {
    match op {
        Operator::Add | Operator::Sub | Operator::Mul | Operator::Div | Operator::Mod => true,
        _ => false,
    }
}

fn is_arithmetic(op: Operator) -> (r: bool)
    ensures
        r == arithmetic(op),
{
    match op {
        Operator::Add | Operator::Sub | Operator::Mul | Operator::Div | Operator::Mod => true,
        _ => false,
    }
}

/// The type of an arithmetic combination: two integers stay integers, an
/// integer beside a float counts as a float, and strings are only joined.
pub open spec fn combined(op: Operator, l: IrType, r: IrType) -> Option<IrType> {
    match (l, r) {
        (IrType::I64, IrType::I64) => Some(IrType::I64),
        (
            IrType::F64,
            IrType::F64,
        ) | (IrType::F64, IrType::I64) | (IrType::I64, IrType::F64) => Some(
            IrType::F64,
        ),
        (IrType::String, IrType::String) => if op == Operator::Add {
            Some(IrType::String)
        } else {
            None
        },
        _ => None,
    }
}

fn combine(op: Operator, l: IrType, r: IrType) -> (ty: Option<IrType>)
    ensures
        ty == combined(op, l, r),
{
    match (l, r) {
        (IrType::I64, IrType::I64) => Some(IrType::I64),
        (
            IrType::F64,
            IrType::F64,
        ) | (IrType::F64, IrType::I64) | (IrType::I64, IrType::F64) => Some(
            IrType::F64,
        ),
        (IrType::String, IrType::String) => if op == Operator::Add {
            Some(IrType::String)
        } else {
            None
        },
        _ => None,
    }
}

/// The type of a scalar field value, or why it has none.
pub open spec fn scalar_type(
    env: FieldEnv,
    expr: Expr,
    range: TokenRange,
    field: Seq<char>,
) -> Result<
    IrType,
    ErrorView,
>
    decreases expr,
{
    match expr {
        Expr::Int(_) => Ok(IrType::I64),
        Expr::Float(_) => Ok(IrType::F64),
        Expr::Bool(_) => Ok(IrType::Bool),
        Expr::String(_) => Ok(IrType::String),
        Expr::Reference { base, path } => if field_base(base) {
            match typed_name(env.fields, plain_name(path@)) {
                Some(t) => Ok(t),
                None => Err(
                    bad_value(
                        "field `"@,
                        field,
                        "sibling/root reference "@ + path_text(path@)
                            + " does not name a host-visible field"@,
                        range,
                    ),
                ),
            }
        } else {
            Err(unsupported_shape(expr, range, field))
        },
        Expr::Variable(path) => match typed_name(env.params, plain_name(path@)) {
            Some(t) => Ok(t),
            None => if dict_probe(path@, env.dicts) {
                Ok(IrType::I64)
            } else {
                Err(
                    bad_value(
                        "field `"@,
                        field,
                        "cannot classify Variable("@ + path_text(path@) + ")"@,
                        range,
                    ),
                )
            },
        },
        Expr::FnCall { path, .. } => match typed_name(env.closures, plain_name(path@)) {
            Some(t) => Ok(t),
            None => if path@.len() == 2 && key_is(path@[0], "list"@) && key_is(
                path@[1],
                "sum"@,
            ) {
                Ok(IrType::I64)
            } else {
                Err(
                    bad_value(
                        "field `"@,
                        field,
                        "cannot classify FnCall("@ + path_text(path@)
                            + ") — only calls into previously-classified closure fields are supported at this surface"@,
                        range,
                    ),
                )
            },
        },
        Expr::Binary(op, l, r) => if !arithmetic(op) {
            Err(unsupported_shape(expr, range, field))
        } else {
            match scalar_type(env, *l.expr, l.range, field) {
                Err(e) => Err(e),
                Ok(lt) => match scalar_type(env, *r.expr, r.range, field) {
                    Err(e) => Err(e),
                    Ok(rt) => match combined(op, lt, rt) {
                        Some(t) => Ok(t),
                        None => if lt == rt {
                            Err(unsupported_shape(expr, range, field))
                        } else {
                            Err(
                                bad_value(
                                    "field `"@,
                                    field,
                                    "binary with mixed scalar types "@ + lt.tag() + " / "@
                                        + rt.tag(),
                                    range,
                                ),
                            )
                        },
                    },
                },
            }
        },
        _ => Err(unsupported_shape(expr, range, field)),
    }
}

/// The error for a field value of a form that is not classified.
pub open spec fn unsupported_shape(expr: Expr, range: TokenRange, field: Seq<char>) -> ErrorView {
    bad_value("field `"@, field, "unsupported value shape `"@ + expr_kind(expr) + "`"@, range)
}

fn shape_error(expr: &Expr, range: TokenRange, field: &str) -> (e: LoweringError)
    ensures
        e@ == unsupported_shape(*expr, range, field@),
{
    let tail: String = join3("unsupported value shape `", expr_kind_name(expr), "`");
    value_error("field `", field, tail.as_str(), range)
}

/// Tells the type of a scalar field value.
pub fn classify_anon_dict_scalar_field_irt(
    expr: &Expr,
    range: TokenRange,
    scope: &FieldScope,
    field_name: &str,
) -> (r: Result<IrType, LoweringError>)
    ensures
        match r {
            Ok(t) => scalar_type(scope@, *expr, range, field_name@) == Ok::<IrType, ErrorView>(t),
            Err(e) => scalar_type(scope@, *expr, range, field_name@) == Err::<IrType, ErrorView>(
                e@,
            ),
        },
    decreases expr,
{
    match expr {
        Expr::Int(_) => Ok(IrType::I64),
        Expr::Float(_) => Ok(IrType::F64),
        Expr::Bool(_) => Ok(IrType::Bool),
        Expr::String(_) => Ok(IrType::String),
        Expr::Reference { base, path } => {
            if *base != RefBase::Sibling && *base != RefBase::Root {
                return Err(shape_error(expr, range, field_name));
            }
            match name_type(&scope.fields, single_name(path)) {
                Some(t) => Ok(t),
                None => {
                    let tail: String = join3(
                        "sibling/root reference ",
                        path_display(path).as_str(),
                        " does not name a host-visible field",
                    );
                    Err(value_error("field `", field_name, tail.as_str(), range))
                },
            }
        },
        Expr::Variable(path) => match name_type(&scope.params, single_name(path)) {
            Some(t) => Ok(t),
            None => {
                if is_dict_probe(path, &scope.dicts) {
                    return Ok(IrType::I64);
                }
                let tail: String = join3(
                    "cannot classify Variable(",
                    path_display(path).as_str(),
                    ")",
                );
                Err(value_error("field `", field_name, tail.as_str(), range))
            },
        },
        Expr::FnCall { path, .. } => match name_type(&scope.closures, single_name(path)) {
            Some(t) => Ok(t),
            None => {
                if path.len() == 2 && is_key(&path[0], "list") && is_key(
                    &path[1],
                    "sum",
                ) {
                    return Ok(IrType::I64);
                }
                let tail: String = join3(
                    "cannot classify FnCall(",
                    path_display(path).as_str(),
                    ") — only calls into previously-classified closure fields are supported at this surface",
                );
                Err(value_error("field `", field_name, tail.as_str(), range))
            },
        },
        Expr::Binary(op, l, r) => {
            if !is_arithmetic(*op) {
                return Err(shape_error(expr, range, field_name));
            }
            let lt: IrType = match classify_anon_dict_scalar_field_irt(
                &*l.expr,
                l.range,
                scope,
                field_name,
            ) {
                Ok(t) => t,
                Err(e) => {
                    return Err(e);
                },
            };
            let rt: IrType = match classify_anon_dict_scalar_field_irt(
                &*r.expr,
                r.range,
                scope,
                field_name,
            ) {
                Ok(t) => t,
                Err(e) => {
                    return Err(e);
                },
            };
            match combine(*op, lt, rt) {
                Some(t) => Ok(t),
                None => {
                    if lt == rt {
                        return Err(shape_error(expr, range, field_name));
                    }
                    let tail: String = join3(
                        "binary with mixed scalar types ",
                        lt.name(),
                        " / ",
                    ).concat(rt.name());
                    Err(value_error("field `", field_name, tail.as_str(), range))
                },
            }
        },
        _ => Err(shape_error(expr, range, field_name)),
    }
}

/// The canonical type of a scalar field, or why it has none.
pub open spec fn scalar_repr(
    env: FieldEnv,
    expr: Expr,
    range: TokenRange,
    field: Seq<char>,
) -> Result<
    TypeRepr,
    ErrorView,
> {
    match scalar_type(env, expr, range, field) {
        Err(e) => Err(e),
        Ok(t) => match repr_of_ir_type(t) {
            Some(ty) => Ok(ty),
            None => Err(
                bad_value("field `"@, field, "non-scalar inferred IR type "@ + t.tag(), range),
            ),
        },
    }
}

/// Tells the canonical type of a scalar field.
pub fn classify_anon_dict_scalar_field(
    expr: &Expr,
    range: TokenRange,
    scope: &FieldScope,
    field_name: &str,
) -> (r: Result<TypeRepr, LoweringError>)
    ensures
        match r {
            Ok(t) => scalar_repr(scope@, *expr, range, field_name@) == Ok::<TypeRepr, ErrorView>(
                t,
            ),
            Err(e) => scalar_repr(scope@, *expr, range, field_name@) == Err::<
                TypeRepr,
                ErrorView,
            >(e@),
        },
{
    match classify_anon_dict_scalar_field_irt(expr, range, scope, field_name) {
        Err(e) => Err(e),
        Ok(t) => match ir_type_to_type_repr(t) {
            Some(ty) => Ok(ty),
            None => {
                let tail: String = join2("non-scalar inferred IR type ", t.name());
                Err(value_error("field `", field_name, tail.as_str(), range))
            },
        },
    }
}

// ---------------------------------------------------------------------------
// Lists of variants.
// ---------------------------------------------------------------------------

/// A scalar type of a variant payload.
#[derive(Clone, Copy, Debug, PartialEq, Eq, Structural)]
pub enum ScalarType {
    Int,
    Float,
    Bool,
    String,
}

impl ScalarType {
    /// The canonical type.
    pub open spec fn spec_repr(self) -> TypeRepr {
        match self {
            ScalarType::Int => TypeRepr::Int,
            ScalarType::Float => TypeRepr::Float,
            ScalarType::Bool => TypeRepr::Bool,
            ScalarType::String => TypeRepr::String,
        }
    }

    /// Executable form of [`ScalarType::spec_repr`].
    pub fn repr(self) -> (r: TypeRepr)
        ensures
            r == self.spec_repr(),
    {
        match self {
            ScalarType::Int => TypeRepr::Int,
            ScalarType::Float => TypeRepr::Float,
            ScalarType::Bool => TypeRepr::Bool,
            ScalarType::String => TypeRepr::String,
        }
    }

    /// The name of the type.
    pub open spec fn text(self) -> Seq<char> {
        match self {
            ScalarType::Int => "Int"@,
            ScalarType::Float => "Float"@,
            ScalarType::Bool => "Bool"@,
            ScalarType::String => "String"@,
        }
    }

    /// Executable form of [`ScalarType::text`].
    pub fn name(self) -> (r: &'static str)
        ensures
            r@ == self.text(),
    {
        match self {
            ScalarType::Int => "Int",
            ScalarType::Float => "Float",
            ScalarType::Bool => "Bool",
            ScalarType::String => "String",
        }
    }
}

/// The scalar type of an expression form that shows it: a literal.
pub open spec fn literal_type(expr: Expr) -> Option<ScalarType> {
    match expr {
        Expr::Int(_) => Some(ScalarType::Int),
        Expr::Float(_) => Some(ScalarType::Float),
        Expr::Bool(_) => Some(ScalarType::Bool),
        Expr::String(_) => Some(ScalarType::String),
        _ => None,
    }
}

fn type_of_literal(expr: &Expr) -> (r: Option<ScalarType>)
    ensures
        r == literal_type(*expr),
{
    match expr {
        Expr::Int(_) => Some(ScalarType::Int),
        Expr::Float(_) => Some(ScalarType::Float),
        Expr::Bool(_) => Some(ScalarType::Bool),
        Expr::String(_) => Some(ScalarType::String),
        _ => None,
    }
}

/// The scalar that an instruction type is.
pub open spec fn scalar_of(t: IrType) -> Option<ScalarType> {
    match t {
        IrType::I64 => Some(ScalarType::Int),
        IrType::F64 => Some(ScalarType::Float),
        IrType::Bool => Some(ScalarType::Bool),
        IrType::String => Some(ScalarType::String),
        _ => None,
    }
}

/// The scalar type of a variant payload: a literal, or an entry parameter.
pub open spec fn payload_scalar(expr: Expr, params: Map<Seq<char>, IrType>) -> Option<ScalarType> {
    match expr {
        Expr::Variable(path) => match typed_name(params, plain_name(path@)) {
            Some(t) => scalar_of(t),
            None => None,
        },
        _ => literal_type(expr),
    }
}

/// Executable form of [`payload_scalar`].
pub fn variant_payload_scalar_ty(expr: &Expr, main_param_tys: &NameTable<IrType>) -> (r: Option<
    ScalarType,
>)
    ensures
        r == payload_scalar(*expr, main_param_tys.as_map()),
{
    match expr {
        Expr::Variable(path) => match name_type(main_param_tys, single_name(path)) {
            Some(IrType::I64) => Some(ScalarType::Int),
            Some(IrType::F64) => Some(ScalarType::Float),
            Some(IrType::Bool) => Some(ScalarType::Bool),
            Some(IrType::String) => Some(ScalarType::String),
            _ => None,
        },
        _ => type_of_literal(expr),
    }
}

/// The enum and the variant that a dotted path of plain names stands for.
pub open spec fn token_variant(path: Seq<TokenKey>) -> Option<(Seq<char>, Seq<char>)> {
    match path_names(path) {
        Some(parts) => if parts.len() < 2 {
            None
        } else {
            Some((joined(parts.drop_last(), "."@), parts.last()))
        },
        None => None,
    }
}

/// Executable form of [`token_variant`].
pub fn enum_variant_literal_token_path(path: &Vec<TokenKey>) -> (r: Option<(String, String)>)
    ensures
        match r {
            Some(v) => token_variant(path@) == Some((v.0@, v.1@)),
            None => token_variant(path@) is None,
        },
{
    match path_strings(path) {
        None => None,
        Some(slices) => {
            if slices.len() < 2 {
                return None;
            }
            let mut parts: Vec<String> = Vec::new();
            let mut i: usize = 0;
            while i < slices.len() - 1
                invariant
                    i <= slices@.len() - 1,
                    slices@.len() >= 2,
                    parts@.len() == i,
                    forall|k: int| 0 <= k < i ==> (#[trigger] parts@[k])@ == slices@[k]@,
                decreases slices@.len() - i,
            {
                parts.push(slices[i].to_owned());
                i += 1;
            }
            assert(texts(parts@) =~= slices_view(slices@).drop_last());
            Some((join_texts(&parts, "."), slices[slices.len() - 1].to_owned()))
        },
    }
}

/// The enum and the variant that an expression names.
pub open spec fn literal_variant(expr: Expr) -> Option<(Seq<char>, Seq<char>)> {
    match expr {
        Expr::Variable(path) => token_variant(path@),
        Expr::FnCall { path, .. } => token_variant(path@),
        Expr::VariantCtor { enum_path, variant, .. } => if enum_path@.len() == 0 {
            None
        } else {
            Some((joined(texts(enum_path@), "."@), variant@))
        },
        _ => None,
    }
}

/// Executable form of [`literal_variant`].
pub fn enum_variant_literal_path(expr: &Expr) -> (r: Option<(String, String)>)
    ensures
        match r {
            Some(v) => literal_variant(*expr) == Some((v.0@, v.1@)),
            None => literal_variant(*expr) is None,
        },
{
    match expr {
        Expr::Variable(path) => enum_variant_literal_token_path(path),
        Expr::FnCall { path, .. } => enum_variant_literal_token_path(path),
        Expr::VariantCtor { enum_path, variant, .. } => if enum_path.len() == 0 {
            None
        } else {
            Some((join_texts(enum_path, "."), variant.clone()))
        },
        _ => None,
    }
}

/// One of the two builtin variant types.
#[derive(Clone, Copy, Debug, PartialEq, Eq, Structural)]
pub enum VariantListKind {
    Option,
    Result,
}

impl VariantListKind {
    /// The name of the type.
    pub open spec fn text(self) -> Seq<char> {
        match self {
            VariantListKind::Option => "Option"@,
            VariantListKind::Result => "Result"@,
        }
    }

    /// Executable form of [`VariantListKind::text`].
    pub fn name(self) -> (r: &'static str)
        ensures
            r@ == self.text(),
    {
        match self {
            VariantListKind::Option => "Option",
            VariantListKind::Result => "Result",
        }
    }
}

/// What a variant of a builtin type carries: nothing, the value, or the error.
#[derive(Clone, Copy, Debug, PartialEq, Eq, Structural)]
pub enum PayloadSlot {
    Nothing,
    Value,
    Error,
}

/// What the named variant carries.
pub open spec fn payload_slot(kind: VariantListKind, variant: Seq<char>) -> Option<PayloadSlot> {
    match kind {
        VariantListKind::Option => if variant == "None"@ {
            Some(PayloadSlot::Nothing)
        } else if variant == "Some"@ {
            Some(PayloadSlot::Value)
        } else {
            None
        },
        VariantListKind::Result => if variant == "Ok"@ {
            Some(PayloadSlot::Value)
        } else if variant == "Err"@ {
            Some(PayloadSlot::Error)
        } else {
            None
        },
    }
}

fn slot_of(kind: VariantListKind, variant: &String) -> (r: Option<PayloadSlot>)
    ensures
        r == payload_slot(kind, variant@),
{
    match kind {
        VariantListKind::Option => if text_is(variant, "None") {
            Some(PayloadSlot::Nothing)
        } else if text_is(variant, "Some") {
            Some(PayloadSlot::Value)
        } else {
            None
        },
        VariantListKind::Result => if text_is(variant, "Ok") {
            Some(PayloadSlot::Value)
        } else if text_is(variant, "Err") {
            Some(PayloadSlot::Error)
        } else {
            None
        },
    }
}

/// The payload types found so far, of the value and of the error.
#[derive(Clone, Copy, Debug, PartialEq, Eq, Structural)]
pub struct PayloadTypes {
    pub value: Option<ScalarType>,
    pub error: Option<ScalarType>,
}

/// The types found after one more payload of the type `ty`, or the two types
/// that disagree.
pub open spec fn with_payload(found: PayloadTypes, is_err: bool, ty: ScalarType) -> Result<
    PayloadTypes,
    (ScalarType, ScalarType),
> {
    let slot = if is_err {
        found.error
    } else {
        found.value
    };
    match slot {
        Some(t) => if t != ty {
            Err((t, ty))
        } else {
            Ok(found)
        },
        None => Ok(
            if is_err {
                PayloadTypes { error: Some(ty), ..found }
            } else {
                PayloadTypes { value: Some(ty), ..found }
            },
        ),
    }
}

fn add_payload(found: PayloadTypes, is_err: bool, ty: ScalarType) -> (r: Result<
    PayloadTypes,
    (ScalarType, ScalarType),
>)
    ensures
        r == with_payload(found, is_err, ty),
{
    let slot = if is_err {
        found.error
    } else {
        found.value
    };
    match slot {
        Some(t) => if t != ty {
            Err((t, ty))
        } else {
            Ok(found)
        },
        None => Ok(
            if is_err {
                PayloadTypes { error: Some(ty), value: found.value }
            } else {
                PayloadTypes { value: Some(ty), error: found.error }
            },
        ),
    }
}

/// The payload node of a constructor body, or why there is none.
pub open spec fn ctor_payload(body: Node, slot: PayloadSlot, range: TokenRange) -> Result<
    Node,
    ErrorView,
> {
    match *body.expr {
        Expr::Dict(pairs) => payload_node(
            pairs@,
            if slot == PayloadSlot::Error {
                "error"@
            } else {
                "value"@
            },
            range,
        ),
        other => Err(body_not_dict(other, range)),
    }
}

fn find_ctor_payload<'a>(body: &'a Node, slot: PayloadSlot, range: TokenRange) -> (r: Result<
    &'a Node,
    LoweringError,
>)
    ensures
        match r {
            Ok(n) => ctor_payload(*body, slot, range) == Ok::<Node, ErrorView>(*n),
            Err(e) => ctor_payload(*body, slot, range) == Err::<Node, ErrorView>(e@),
        },
{
    match variant_body_pairs(body, range) {
        Err(e) => Err(e),
        Ok(pairs) => variant_payload_node(
            pairs,
            if slot == PayloadSlot::Error {
                "error"
            } else {
                "value"
            },
            range,
        ),
    }
}

/// The payload types after one element of a list of builtin variants.
pub open spec fn variant_element(
    node: Node,
    kind: VariantListKind,
    params: Map<Seq<char>, IrType>,
    field: Seq<char>,
    found: PayloadTypes,
) -> Result<PayloadTypes, ErrorView> {
    match *node.expr {
        Expr::VariantCtor { enum_path, variant, body } => {
            let path = joined(texts(enum_path@), "."@);
            if path != kind.text() {
                Err(
                    bad_field(
                        field,
                        "heterogeneous variant list field: expected `"@ + kind.text()
                            + "`, found `"@ + path + "`"@,
                        node.range,
                    ),
                )
            } else {
                match payload_slot(kind, variant@) {
                    None => Err(
                        bad_field(
                            field,
                            "`"@ + kind.text() + "` has no variant `"@ + variant@ + "`"@,
                            node.range,
                        ),
                    ),
                    Some(PayloadSlot::Nothing) => Ok(found),
                    Some(slot) => match ctor_payload(body, slot, node.range) {
                        Err(e) => Err(e),
                        Ok(payload) => match payload_scalar(*payload.expr, params) {
                            None => Err(
                                bad_field(
                                    field,
                                    "`"@ + kind.text() + "."@ + variant@ + "` payload `"@
                                        + expr_kind(*payload.expr)
                                        + "` is not a scalar literal or scalar `#main` parameter — cannot type the variant list element"@,
                                    payload.range,
                                ),
                            ),
                            Some(ty) => match with_payload(
                                found,
                                slot == PayloadSlot::Error,
                                ty,
                            ) {
                                Ok(more) => Ok(more),
                                Err(two) => Err(
                                    bad_field(
                                        field,
                                        "heterogeneous `"@ + kind.text() + "` payload type: "@
                                            + two.0.text() + " vs "@ + two.1.text(),
                                        payload.range,
                                    ),
                                ),
                            },
                        },
                    },
                }
            }
        },
        other => Err(
            bad_field(
                field,
                "list element `"@ + expr_kind(other) + "` — expected a `"@ + kind.text()
                    + "` variant constructor"@,
                node.range,
            ),
        ),
    }
}

fn read_variant_element(
    node: &Node,
    kind: VariantListKind,
    params: &NameTable<IrType>,
    field: &str,
    found: PayloadTypes,
) -> (r: Result<PayloadTypes, LoweringError>)
    ensures
        match r {
            Ok(t) => variant_element(*node, kind, params.as_map(), field@, found) == Ok::<
                PayloadTypes,
                ErrorView,
            >(t),
            Err(e) => variant_element(*node, kind, params.as_map(), field@, found) == Err::<
                PayloadTypes,
                ErrorView,
            >(e@),
        },
{
    match &*node.expr {
        Expr::VariantCtor { enum_path, variant, body } => {
            let path: String = join_texts(enum_path, ".");
            if !same_text(path.as_str(), kind.name()) {
                return Err(
                    field_error(
                        field,
                        join3(
                            "heterogeneous variant list field: expected `",
                            kind.name(),
                            "`, found `",
                        ).concat(path.as_str()).concat("`"),
                        node.range,
                    ),
                );
            }
            let slot: PayloadSlot = match slot_of(kind, variant) {
                None => {
                    return Err(
                        field_error(
                            field,
                            join3("`", kind.name(), "` has no variant `").concat(
                                variant.as_str(),
                            ).concat("`"),
                            node.range,
                        ),
                    );
                },
                Some(s) => s,
            };
            if slot == PayloadSlot::Nothing {
                return Ok(found);
            }
            let payload: &Node = match find_ctor_payload(body, slot, node.range) {
                Err(e) => {
                    return Err(e);
                },
                Ok(n) => n,
            };
            match variant_payload_scalar_ty(&*payload.expr, params) {
                None => Err(
                    field_error(
                        field,
                        join3("`", kind.name(), ".").concat(variant.as_str()).concat(
                            "` payload `",
                        ).concat(expr_kind_name(&*payload.expr)).concat(
                            "` is not a scalar literal or scalar `#main` parameter — cannot type the variant list element",
                        ),
                        payload.range,
                    ),
                ),
                Some(ty) => match add_payload(found, slot == PayloadSlot::Error, ty) {
                    Ok(more) => Ok(more),
                    Err(two) => Err(
                        field_error(
                            field,
                            join3("heterogeneous `", kind.name(), "` payload type: ").concat(
                                two.0.name(),
                            ).concat(" vs ").concat(two.1.name()),
                            payload.range,
                        ),
                    ),
                },
            }
        },
        other => Err(
            field_error(
                field,
                join3("list element `", expr_kind_name(other), "` — expected a `").concat(
                    kind.name(),
                ).concat("` variant constructor"),
                node.range,
            ),
        ),
    }
}

/// The payload types of the elements at and behind `from`, joined to those
/// found before.
pub open spec fn variant_elements(
    items: Seq<Node>,
    kind: VariantListKind,
    params: Map<Seq<char>, IrType>,
    field: Seq<char>,
    found: PayloadTypes,
    from: int,
) -> Result<PayloadTypes, ErrorView>
    decreases items.len() - from,
{
    if from < 0 || from >= items.len() {
        Ok(found)
    } else {
        match variant_element(items[from], kind, params, field, found) {
            Err(e) => Err(e),
            Ok(more) => variant_elements(items, kind, params, field, more, from + 1),
        }
    }
}

/// The type of a list literal whose first element is a builtin variant; `None`
/// where the literal does not show the payload types.
pub open spec fn variant_list_type(
    items: Seq<Node>,
    field: Seq<char>,
    params: Map<Seq<char>, IrType>,
) -> Result<Option<TypeRepr>, ErrorView> {
    match list_kind(items) {
        None => Ok(None),
        Some(kind) => match variant_elements(
            items,
            kind,
            params,
            field,
            PayloadTypes { value: None, error: None },
            0,
        ) {
            Err(e) => Err(e),
            Ok(found) => Ok(variant_list_repr(kind, found)),
        },
    }
}

/// The builtin variant type of the first element.
pub open spec fn list_kind(items: Seq<Node>) -> Option<VariantListKind> {
    if items.len() == 0 {
        None
    } else {
        match literal_variant(*items[0].expr) {
            Some((name, _)) => if name == "Option"@ {
                Some(VariantListKind::Option)
            } else if name == "Result"@ {
                Some(VariantListKind::Result)
            } else {
                None
            },
            None => None,
        }
    }
}

/// The list type for payloads of the given types.
pub open spec fn variant_list_repr(kind: VariantListKind, found: PayloadTypes) -> Option<
    TypeRepr,
> {
    match kind {
        VariantListKind::Option => match found.value {
            Some(t) => Some(
                TypeRepr::List {
                    element: Box::new(TypeRepr::Option { inner: Box::new(t.spec_repr()) }),
                },
            ),
            None => None,
        },
        VariantListKind::Result => match (found.value, found.error) {
            (Some(ok), Some(err)) => Some(
                TypeRepr::List {
                    element: Box::new(
                        TypeRepr::Result {
                            ok: Box::new(ok.spec_repr()),
                            err: Box::new(err.spec_repr()),
                        },
                    ),
                },
            ),
            _ => None,
        },
    }
}

/// Tells the type of a list literal of builtin variants.
pub fn classify_anon_dict_variant_list_field(
    items: &Vec<Node>,
    field_name: &str,
    main_param_tys: &NameTable<IrType>,
) -> (r: Result<Option<TypeRepr>, LoweringError>)
    ensures
        match r {
            Ok(t) => variant_list_type(items@, field_name@, main_param_tys.as_map()) == Ok::<
                Option<TypeRepr>,
                ErrorView,
            >(t),
            Err(e) => variant_list_type(items@, field_name@, main_param_tys.as_map()) == Err::<
                Option<TypeRepr>,
                ErrorView,
            >(e@),
        },
{
    if items.len() == 0 {
        return Ok(None);
    }
    let kind: VariantListKind = match enum_variant_literal_path(&*items[0].expr) {
        None => {
            return Ok(None);
        },
        Some(named) => if text_is(&named.0, "Option") {
            VariantListKind::Option
        } else if text_is(&named.0, "Result") {
            VariantListKind::Result
        } else {
            return Ok(None);
        },
    };
    let mut found: PayloadTypes = PayloadTypes { value: None, error: None };
    let mut i: usize = 0;
    let ghost params = main_param_tys.as_map();
    let ghost whole = variant_elements(items@, kind, params, field_name@, found, 0);
    while i < items.len()
        invariant
            i <= items.len(),
            params == main_param_tys.as_map(),
            whole == variant_elements(items@, kind, params, field_name@, found, i as int),
            items@.len() > 0,
            list_kind(items@) == Some(kind),
            whole == variant_elements(
                items@,
                kind,
                params,
                field_name@,
                PayloadTypes { value: None, error: None },
                0,
            ),
        decreases items.len() - i,
    {
        match read_variant_element(&items[i], kind, main_param_tys, field_name, found) {
            Err(e) => {
                return Err(e);
            },
            Ok(more) => {
                found = more;
            },
        }
        i += 1;
    }
    match kind {
        VariantListKind::Option => match found.value {
            Some(t) => Ok(
                Some(
                    TypeRepr::List {
                        element: Box::new(TypeRepr::Option { inner: Box::new(t.repr()) }),
                    },
                ),
            ),
            None => Ok(None),
        },
        VariantListKind::Result => match (found.value, found.error) {
            (Some(ok), Some(err)) => Ok(
                Some(
                    TypeRepr::List {
                        element: Box::new(
                            TypeRepr::Result {
                                ok: Box::new(ok.repr()),
                                err: Box::new(err.repr()),
                            },
                        ),
                    },
                ),
            ),
            _ => Ok(None),
        },
    }
}

// ---------------------------------------------------------------------------
// Lists of enum values, and lists in general.
// ---------------------------------------------------------------------------

/// The named enum type of the table, which has variants.
pub open spec fn table_enum(
    entries: Seq<(String, &SchemaDef)>,
    name: Seq<char>,
) -> Option<SchemaDef> {
    match table_index(entries, name, 0) {
        Some(i) => if entries[i].1.variants@.len() == 0 {
            None
        } else {
            Some(*entries[i].1)
        },
        None => None,
    }
}

/// The error for an unknown variant.
pub open spec fn no_variant(
    field: Seq<char>,
    enum_name: Seq<char>,
    variant: Seq<char>,
    range: TokenRange,
) -> ErrorView {
    bad_field(field, "enum `"@ + enum_name + "` has no variant `"@ + variant + "`"@, range)
}

fn variant_error(field: &str, enum_name: &str, variant: &str, range: TokenRange) -> (e:
    LoweringError)
    ensures
        e@ == no_variant(field@, enum_name@, variant@, range),
{
    field_error(
        field,
        join3("enum `", enum_name, "` has no variant `").concat(variant).concat("`"),
        range,
    )
}

/// What is wrong with the first offending element at or behind `from`.
pub open spec fn enum_elements(
    items: Seq<Node>,
    enum_name: Seq<char>,
    variants: Seq<String>,
    field: Seq<char>,
    from: int,
) -> Option<ErrorView>
    decreases items.len() - from,
{
    if from < 0 || from >= items.len() {
        None
    } else {
        let node = items[from];
        match literal_variant(*node.expr) {
            None => Some(
                bad_field(
                    field,
                    "heterogeneous list field: expected `"@ + enum_name
                        + "` enum variants, found `"@ + expr_kind(*node.expr) + "`"@,
                    node.range,
                ),
            ),
            Some((item_enum, item_variant)) => if item_enum != enum_name {
                Some(
                    bad_field(
                        field,
                        "heterogeneous enum list field: expected `"@ + enum_name + "`, found `"@
                            + item_enum + "`"@,
                        node.range,
                    ),
                )
            } else if !among(variants, item_variant) {
                Some(no_variant(field, enum_name, item_variant, node.range))
            } else {
                enum_elements(items, enum_name, variants, field, from + 1)
            },
        }
    }
}

/// The type of a list literal whose first element names a variant of an enum
/// of the table; `None` where it does not.
pub open spec fn enum_list_type(
    items: Seq<Node>,
    range: TokenRange,
    field: Seq<char>,
    entries: Seq<(String, &SchemaDef)>,
) -> Result<Option<TypeView>, ErrorView> {
    if items.len() == 0 {
        Ok(None)
    } else {
        match literal_variant(*items[0].expr) {
            None => Ok(None),
            Some((enum_name, first)) => match table_enum(entries, enum_name) {
                None => Ok(None),
                Some(def) => if !among(def.variants@, first) {
                    Err(no_variant(field, enum_name, first, items[0].range))
                } else {
                    match enum_elements(items, enum_name, def.variants@, field, 1) {
                        Some(e) => Err(e),
                        None => match def.shape {
                            Ok(ty) => Ok(
                                Some(TypeView::List { element: Box::new(type_view(ty)) }),
                            ),
                            Err(e) => Err(placed(e@, range)),
                        },
                    }
                },
            },
        }
    }
}

/// The mathematical value of an optional type or an error.
pub open spec fn opt_type_outcome(r: Result<Option<TypeRepr>, LoweringError>) -> Result<
    Option<TypeView>,
    ErrorView,
> {
    match r {
        Ok(Some(t)) => Ok(Some(type_view(t))),
        Ok(None) => Ok(None),
        Err(e) => Err(e@),
    }
}

/// Tells the type of a list literal of enum values.
pub fn classify_anon_dict_enum_list_field(
    items: &Vec<Node>,
    range: TokenRange,
    field_name: &str,
    types: &SchemaTable<'_>,
) -> (r: Result<Option<TypeRepr>, LoweringError>)
    ensures
        opt_type_outcome(r) == enum_list_type(items@, range, field_name@, types.entries@),
{
    if items.len() == 0 {
        return Ok(None);
    }
    let (enum_name, first) = match enum_variant_literal_path(&*items[0].expr) {
        None => {
            return Ok(None);
        },
        Some(named) => named,
    };
    let def = match types.find(enum_name.as_str()) {
        None => {
            return Ok(None);
        },
        Some(found) => found,
    };
    let variants = &def.variants;
    if variants.len() == 0 {
        return Ok(None);
    }
    if !is_among(variants, first.as_str()) {
        return Err(
            variant_error(field_name, enum_name.as_str(), first.as_str(), items[0].range),
        );
    }
    let mut i: usize = 1;
    while i < items.len()
        invariant
            1 <= i <= items.len(),
            literal_variant(*items@[0].expr) == Some((enum_name@, first@)),
            table_enum(types.entries@, enum_name@) == Some(*def),
            def.variants == *variants,
            among(variants@, first@),
            enum_elements(items@, enum_name@, variants@, field_name@, 1) == enum_elements(
                items@,
                enum_name@,
                variants@,
                field_name@,
                i as int,
            ),
        decreases items.len() - i,
    {
        let node = &items[i];
        match enum_variant_literal_path(&*node.expr) {
            None => {
                return Err(
                    field_error(
                        field_name,
                        join3(
                            "heterogeneous list field: expected `",
                            enum_name.as_str(),
                            "` enum variants, found `",
                        ).concat(expr_kind_name(&*node.expr)).concat("`"),
                        node.range,
                    ),
                );
            },
            Some(named) => {
                if !same_text(named.0.as_str(), enum_name.as_str()) {
                    return Err(
                        field_error(
                            field_name,
                            join3(
                                "heterogeneous enum list field: expected `",
                                enum_name.as_str(),
                                "`, found `",
                            ).concat(named.0.as_str()).concat("`"),
                            node.range,
                        ),
                    );
                }
                if !is_among(variants, named.1.as_str()) {
                    return Err(
                        variant_error(
                            field_name,
                            enum_name.as_str(),
                            named.1.as_str(),
                            node.range,
                        ),
                    );
                }
            },
        }
        i += 1;
    }
    match &def.shape {
        Ok(ty) => Ok(Some(TypeRepr::List { element: Box::new(copy_type(ty)) })),
        Err(e) => Err(place_error(e, range)),
    }
}

/// The first element at or behind `from` that is no literal of the given type.
pub open spec fn odd_element(items: Seq<Node>, ty: ScalarType, from: int) -> Option<int>
    decreases items.len() - from,
{
    if from < 0 || from >= items.len() {
        None
    } else if literal_type(*items[from].expr) != Some(ty) {
        Some(from)
    } else {
        odd_element(items, ty, from + 1)
    }
}

/// The type of a list literal that the host sees.
pub open spec fn list_type(
    items: Seq<Node>,
    range: TokenRange,
    field: Seq<char>,
    entries: Seq<(String, &SchemaDef)>,
    params: Map<Seq<char>, IrType>,
) -> Result<TypeView, ErrorView> {
    if items.len() == 0 {
        Err(
            bad_field(
                field,
                "empty list field — element type cannot be inferred for the return marshaller"@,
                range,
            ),
        )
    } else {
        match variant_list_type(items, field, params) {
            Err(e) => Err(e),
            Ok(Some(t)) => Ok(type_view(t)),
            Ok(None) => match enum_list_type(items, range, field, entries) {
                Err(e) => Err(e),
                Ok(Some(t)) => Ok(t),
                Ok(None) => scalar_list_type(items, range, field),
            },
        }
    }
}

/// The type of a list literal of scalar literals.
pub open spec fn scalar_list_type(items: Seq<Node>, range: TokenRange, field: Seq<char>) -> Result<
    TypeView,
    ErrorView,
> {
    match literal_type(*items[0].expr) {
        None => Err(
            bad_field(
                field,
                "list element `"@ + expr_kind(*items[0].expr)
                    + "` — only homogeneous List<Int/Float/Bool/String> fields are marshalled in anon-Dict returns"@,
                range,
            ),
        ),
        Some(ty) => match odd_element(items, ty, 1) {
            Some(i) => Err(
                bad_field(
                    field,
                    "heterogeneous list field (expected all "@ + ty.text()
                        + " elements, found `"@ + expr_kind(*items[i].expr) + "`)"@,
                    range,
                ),
            ),
            None => Ok(TypeView::List { element: Box::new(type_view(ty.spec_repr())) }),
        },
    }
}

/// The mathematical value of a type or an error.
pub open spec fn type_outcome(r: Result<TypeRepr, LoweringError>) -> Result<TypeView, ErrorView> {
    match r {
        Ok(t) => Ok(type_view(t)),
        Err(e) => Err(e@),
    }
}

/// Tells the type of a list literal that the host sees.
pub fn classify_anon_dict_list_field(
    items: &Vec<Node>,
    range: TokenRange,
    field_name: &str,
    types: &SchemaTable<'_>,
    main_param_tys: &NameTable<IrType>,
) -> (r: Result<TypeRepr, LoweringError>)
    ensures
        type_outcome(r) == list_type(
            items@,
            range,
            field_name@,
            types.entries@,
            main_param_tys.as_map(),
        ),
{
    if items.len() == 0 {
        return Err(
            field_error(
                field_name,
                "empty list field — element type cannot be inferred for the return marshaller".to_owned(),
                range,
            ),
        );
    }
    match classify_anon_dict_variant_list_field(items, field_name, main_param_tys) {
        Err(e) => {
            return Err(e);
        },
        Ok(Some(t)) => {
            return Ok(t);
        },
        Ok(None) => {},
    }
    match classify_anon_dict_enum_list_field(items, range, field_name, types) {
        Err(e) => {
            return Err(e);
        },
        Ok(Some(t)) => {
            return Ok(t);
        },
        Ok(None) => {},
    }
    let ty: ScalarType = match type_of_literal(&*items[0].expr) {
        None => {
            return Err(
                field_error(
                    field_name,
                    join3(
                        "list element `",
                        expr_kind_name(&*items[0].expr),
                        "` — only homogeneous List<Int/Float/Bool/String> fields are marshalled in anon-Dict returns",
                    ),
                    range,
                ),
            );
        },
        Some(t) => t,
    };
    let mut i: usize = 1;
    let ghost whole = list_type(
        items@,
        range,
        field_name@,
        types.entries@,
        main_param_tys.as_map(),
    );
    while i < items.len()
        invariant
            1 <= i <= items.len(),
            whole == list_type(
                items@,
                range,
                field_name@,
                types.entries@,
                main_param_tys.as_map(),
            ),
            whole == scalar_list_type(items@, range, field_name@),
            literal_type(*items@[0].expr) == Some(ty),
            odd_element(items@, ty, 1) == odd_element(items@, ty, i as int),
        decreases items.len() - i,
    {
        if type_of_literal(&*items[i].expr) != Some(ty) {
            return Err(
                field_error(
                    field_name,
                    join3(
                        "heterogeneous list field (expected all ",
                        ty.name(),
                        " elements, found `",
                    ).concat(expr_kind_name(&*items[i].expr)).concat("`)"),
                    range,
                ),
            );
        }
        i += 1;
    }
    Ok(TypeRepr::List { element: Box::new(ty.repr()) })
}

} // verus!

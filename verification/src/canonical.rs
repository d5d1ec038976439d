//! From types as written to canonical types.

use vstd::prelude::*;

use crate::ast::{TokenRange, TypeNode};
use crate::error::{ErrorView, LoweringError};
use crate::ir::texts;
use crate::text::{decimal, decimal_chars, join3, same_text, same_texts, text_is};
use crate::types::{
    copy_type, field_view, fields_view, schema_view, type_view, Field, FieldView, Schema,
    SchemaView, TypeRepr, TypeView,
};
use crate::workspace::{SchemaDef, SchemaInstance};

verus! {

/// The mathematical value of an optional type.
pub open spec fn opt_type_view(t: Option<TypeRepr>) -> Option<TypeView> {
    match t {
        Some(t) => Some(type_view(t)),
        None => None,
    }
}

/// Resolution of type references that do not name a builtin. It answers as a
/// function of the reference.
pub trait TypeResolver {
    /// The canonical type of a reference.
    spec fn resolved(&self, t: TypeNode) -> Option<TypeView>;

    /// Resolves a reference.
    fn resolve_type(&self, t: &TypeNode) -> (r: Option<TypeRepr>)
        ensures
            opt_type_view(r) == self.resolved(*t),
    ;
}

/// Resolves nothing.
#[derive(Clone, Copy, Debug, PartialEq, Eq, Structural)]
pub struct NoSchemas;

impl TypeResolver for NoSchemas {
    open spec fn resolved(&self, t: TypeNode) -> Option<TypeView> {
        None
    }

    fn resolve_type(&self, t: &TypeNode) -> (r: Option<TypeRepr>) {
        None
    }
}

/// Declared types by name; the first entry of a name counts.
#[derive(Debug, PartialEq, Eq)]
pub struct SchemaTable<'a> {
    pub entries: Vec<(String, &'a SchemaDef)>,
}

/// The references are the same but for where they stand. Those with a body of
/// their own are never the same.
pub open spec fn same_reference(a: TypeNode, b: TypeNode) -> bool
    decreases a,
{
    &&& texts(a.path@) == texts(b.path@)
    &&& a.is_optional == b.is_optional
    &&& a.variant_fields is None
    &&& b.variant_fields is None
    &&& a.generics@.len() == b.generics@.len()
    &&& forall|i: int|
        0 <= i < a.generics@.len() ==> same_reference(#[trigger] a.generics@[i], b.generics@[i])
}

/// The lists hold the same references.
pub open spec fn same_references(a: Seq<TypeNode>, b: Seq<TypeNode>) -> bool {
    a.len() == b.len() && forall|i: int|
        0 <= i < a.len() ==> same_reference(#[trigger] a[i], b[i])
}

fn equal_references(a: &Vec<TypeNode>, b: &Vec<TypeNode>) -> (r: bool)
    ensures
        r == same_references(a@, b@),
    decreases a,
{
    if a.len() != b.len() {
        return false;
    }
    let mut i: usize = 0;
    while i < a.len()
        invariant
            i <= a@.len(),
            a@.len() == b@.len(),
            forall|k: int| 0 <= k < i ==> same_reference(#[trigger] a@[k], b@[k]),
        decreases a@.len() - i,
    {
        let x = &a[i];
        let y = &b[i];
        proof {
            assert(decreases_to!(a => a@));
            assert(decreases_to!(a@ => a@[i as int]));
            assert(decreases_to!(a@[i as int] => a@[i as int].generics));
        }
        if !same_texts(&x.path, &y.path) || x.is_optional != y.is_optional
            || x.variant_fields.is_some() || y.variant_fields.is_some() || !equal_references(
            &x.generics,
            &y.generics,
        ) {
            assert(!same_reference(a@[i as int], b@[i as int]));
            return false;
        }
        i += 1;
    }
    true
}

/// The form of the first instance at or behind `from` with the given arguments.
pub open spec fn instance_form(
    instances: Seq<SchemaInstance>,
    args: Seq<TypeNode>,
    from: int,
) -> Option<TypeView>
    decreases instances.len() - from,
{
    if from < 0 || from >= instances.len() {
        None
    } else if same_references(instances[from].args@, args) {
        Some(type_view(instances[from].form))
    } else {
        instance_form(instances, args, from + 1)
    }
}

fn find_instance(instances: &Vec<SchemaInstance>, args: &Vec<TypeNode>) -> (r: Option<TypeRepr>)
    ensures
        opt_type_view(r) == instance_form(instances@, args@, 0),
{
    let mut i: usize = 0;
    while i < instances.len()
        invariant
            i <= instances@.len(),
            instance_form(instances@, args@, 0) == instance_form(instances@, args@, i as int),
        decreases instances@.len() - i,
    {
        if equal_references(&instances[i].args, args) {
            return Some(copy_type(&instances[i].form));
        }
        i += 1;
    }
    None
}

/// The canonical type of a declared type with the given arguments.
pub open spec fn applied(def: SchemaDef, args: Seq<TypeNode>) -> Option<TypeView> {
    if args.len() > 0 {
        instance_form(def.instances@, args, 0)
    } else {
        match def.shape {
            Ok(ty) => Some(type_view(ty)),
            Err(_) => None,
        }
    }
}

/// The first entry of the table with the given name.
pub open spec fn table_index(
    entries: Seq<(String, &SchemaDef)>,
    name: Seq<char>,
    from: int,
) -> Option<
    int,
>
    decreases entries.len() - from,
{
    if from < 0 || from >= entries.len() {
        None
    } else if entries[from].0@ == name {
        Some(from)
    } else {
        table_index(entries, name, from + 1)
    }
}

impl<'a> SchemaTable<'a> {
    /// The declared type of the name.
    pub fn find(&self, name: &str) -> (r: Option<&'a SchemaDef>)
        ensures
            match r {
                Some(def) => table_index(self.entries@, name@, 0) matches Some(i)
                    && self.entries@[i].1 == def,
                None => table_index(self.entries@, name@, 0) is None,
            },
    {
        let mut i: usize = 0;
        while i < self.entries.len()
            invariant
                i <= self.entries@.len(),
                table_index(self.entries@, name@, 0) == table_index(
                    self.entries@,
                    name@,
                    i as int,
                ),
            decreases self.entries@.len() - i,
        {
            let entry = &self.entries[i];
            if same_text(entry.0.as_str(), name) {
                return Some(entry.1);
            }
            i += 1;
        }
        None
    }
}

impl<'a> TypeResolver for SchemaTable<'a> {
    open spec fn resolved(&self, t: TypeNode) -> Option<TypeView> {
        if t.path@.len() == 1 {
            match table_index(self.entries@, t.path@[0]@, 0) {
                Some(i) => applied(*self.entries@[i].1, t.generics@),
                None => None,
            }
        } else {
            None
        }
    }

    fn resolve_type(&self, t: &TypeNode) -> (r: Option<TypeRepr>) {
        if t.path.len() != 1 {
            return None;
        }
        match self.find(t.path[0].as_str()) {
            Some(def) => if t.generics.len() > 0 {
                find_instance(&def.instances, &t.generics)
            } else {
                match &def.shape {
                    Ok(ty) => Some(copy_type(ty)),
                    Err(_) => None,
                }
            },
            None => None,
        }
    }
}

/// Name of the record type that carries the entry parameters.
pub open spec fn main_params_name() -> Seq<char> {
    "MainParams"@
}

/// Name of the record type that carries the returned value.
pub open spec fn main_return_name() -> Seq<char> {
    "Ret"@
}

/// Name of the single field of the returned record.
pub open spec fn return_value_name() -> Seq<char> {
    "value"@
}

/// Heads that are no longer types.
pub open spec fn removed_head(name: Seq<char>) -> bool {
    name == "Null"@ || name == "Unit"@
}

/// Executable form of [`removed_head`].
pub fn is_removed_unit_null_type_name(name: &str) -> (r: bool)
    ensures
        r == removed_head(name@),
{
    same_text(name, "Null") || same_text(name, "Unit")
}

/// The type, made optional where it is written with a question mark.
pub open spec fn optional_if(is_optional: bool, base: TypeView) -> TypeView {
    if is_optional {
        TypeView::Option { inner: Box::new(base) }
    } else {
        base
    }
}

/// Executable form of [`optional_if`].
pub fn maybe_optional(t: &TypeNode, base: TypeRepr) -> (r: TypeRepr)
    ensures
        type_view(r) == optional_if(t.is_optional, type_view(base)),
{
    if t.is_optional {
        TypeRepr::Option { inner: Box::new(base) }
    } else {
        base
    }
}

/// The head is a builtin type constructor.
pub open spec fn builtin_head(name: Seq<char>) -> bool {
    ||| name == "Int"@
    ||| name == "Float"@
    ||| name == "Bool"@
    ||| name == "String"@
    ||| name == "List"@
    ||| name == "Option"@
    ||| name == "Result"@
    ||| name == "Tuple"@
}

/// Executable form of [`builtin_head`].
pub fn is_builtin_head(name: &String) -> (r: bool)
    ensures
        r == builtin_head(name@),
{
    text_is(name, "Int") || text_is(name, "Float") || text_is(name, "Bool") || text_is(
        name,
        "String",
    ) || text_is(name, "List") || text_is(name, "Option") || text_is(name, "Result") || text_is(
        name,
        "Tuple",
    )
}

/// The positional record type of a tuple.
pub open spec fn tuple_schema(elements: Seq<TypeView>) -> SchemaView {
    SchemaView {
        name: "Tuple"@,
        fields: Seq::new(
            elements.len(),
            |i: int| FieldView { name: decimal_chars(i as nat), ty: elements[i] },
        ),
        is_tuple: true,
    }
}

/// The type reference is a single plain name.
pub open spec fn plain_reference(t: TypeNode) -> bool {
    t.path@.len() == 1 && t.variant_fields is None
}

/// The canonical form of a type as written: builtins map to their canonical
/// counterparts, `Tuple<..>` to a positional record, and other heads go
/// through the resolver. A reference that is not a plain name, or names a
/// removed type, has none.
pub open spec fn canonical<R: TypeResolver>(resolver: R, t: TypeNode) -> Option<TypeView>
    decreases t, 2nat,
{
    if !plain_reference(t) || removed_head(t.path@[0]@) {
        None
    } else {
        match canonical_base(resolver, t) {
            Some(base) => Some(optional_if(t.is_optional, base)),
            None => None,
        }
    }
}

/// [`canonical`] without the question mark.
pub open spec fn canonical_base<R: TypeResolver>(resolver: R, t: TypeNode) -> Option<TypeView>
    decreases t, 1nat,
{
    let head = t.path@[0]@;
    let n = t.generics@.len();
    if head == "Int"@ && n == 0 {
        Some(TypeView::Int)
    } else if head == "Float"@ && n == 0 {
        Some(TypeView::Float)
    } else if head == "Bool"@ && n == 0 {
        Some(TypeView::Bool)
    } else if head == "String"@ && n == 0 {
        Some(TypeView::String)
    } else if head == "List"@ && n == 1 {
        match canonical(resolver, t.generics@[0]) {
            Some(e) => Some(TypeView::List { element: Box::new(e) }),
            None => None,
        }
    } else if head == "Option"@ && n == 1 {
        match canonical(resolver, t.generics@[0]) {
            Some(e) => Some(TypeView::Option { inner: Box::new(e) }),
            None => None,
        }
    } else if head == "Result"@ && n == 2 {
        match (canonical(resolver, t.generics@[0]), canonical(resolver, t.generics@[1])) {
            (Some(ok), Some(err)) => Some(
                TypeView::Result { ok: Box::new(ok), err: Box::new(err) },
            ),
            _ => None,
        }
    } else if head == "Tuple"@ {
        match canonical_all(resolver, t.generics@) {
            Some(elements) => Some(TypeView::Schema { schema: tuple_schema(elements) }),
            None => None,
        }
    } else if builtin_head(head) {
        None
    } else {
        resolver.resolved(t)
    }
}

/// The canonical forms of several types, if all have one.
pub open spec fn canonical_all<R: TypeResolver>(resolver: R, ts: Seq<TypeNode>) -> Option<
    Seq<TypeView>,
>
    decreases ts, 0nat,
{
    if ts.len() == 0 {
        Some(Seq::empty())
    } else {
        match (canonical_all(resolver, ts.drop_last()), canonical(resolver, ts.last())) {
            (Some(init), Some(last)) => Some(init.push(last)),
            _ => None,
        }
    }
}

/// If all have a canonical form then so has every prefix.
proof fn lemma_canonical_all_prefix<R: TypeResolver>(resolver: R, ts: Seq<TypeNode>, k: int)
    requires
        0 <= k <= ts.len(),
        canonical_all(resolver, ts.take(k)) is None,
    ensures
        canonical_all(resolver, ts) is None,
    decreases ts.len(),
{
    if k == ts.len() {
        assert(ts.take(k) =~= ts);
    } else {
        assert(ts.drop_last().take(k) =~= ts.take(k));
        lemma_canonical_all_prefix(resolver, ts.drop_last(), k);
    }
}

/// The views of a list of types.
spec fn types_view(ts: Seq<TypeRepr>) -> Seq<TypeView> {
    Seq::new(ts.len(), |i: int| type_view(ts[i]))
}

/// Converts the elements of a tuple.
fn canonical_elements<R: TypeResolver>(ts: &Vec<TypeNode>, resolver: &R) -> (r: Option<
    Vec<TypeRepr>,
>)
    ensures
        match r {
            Some(v) => canonical_all(*resolver, ts@) == Some(types_view(v@)),
            None => canonical_all(*resolver, ts@) is None,
        },
    decreases ts, 0nat,
{
    let mut out: Vec<TypeRepr> = Vec::new();
    let mut i: usize = 0;
    assert(ts@.take(0) =~= Seq::empty());
    assert(types_view(out@) =~= Seq::empty());
    while i < ts.len()
        invariant
            i <= ts.len(),
            canonical_all(*resolver, ts@.take(i as int)) == Some(types_view(out@)),
        decreases ts.len() - i,
    {
        assert(ts@.take(i + 1).drop_last() =~= ts@.take(i as int));
        assert(ts@.take(i + 1).last() == ts@[i as int]);
        assert(decreases_to!(*ts => ts@));
        match type_node_to_canonical_with_schemas(&ts[i], resolver) {
            None => {
                proof {
                    lemma_canonical_all_prefix(*resolver, ts@, i + 1);
                }
                return None;
            },
            Some(e) => {
                let ghost before = types_view(out@);
                out.push(e);
                assert(types_view(out@) =~= before.push(type_view(e)));
            },
        }
        i += 1;
    }
    assert(ts@.take(ts@.len() as int) =~= ts@);
    Some(out)
}

/// The positional record type with the given elements.
fn tuple_of(elements: Vec<TypeRepr>) -> (r: Schema)
    ensures
        schema_view(r) == tuple_schema(types_view(elements@)),
{
    let ghost all = types_view(elements@);
    let mut rest = elements;
    let mut fields: Vec<Field> = Vec::new();
    // Elements are moved out back to front, then the fields are put in order.
    let n: usize = rest.len();
    let mut k: usize = n;
    while k > 0
        invariant
            k <= n,
            rest@.len() == k,
            all.len() == n,
            fields@.len() == n - k,
            forall|i: int| 0 <= i < k ==> type_view(#[trigger] rest@[i]) == all[i],
            forall|j: int|
                0 <= j < n - k ==> field_view(#[trigger] fields@[j]) == (FieldView {
                    name: decimal_chars((n - 1 - j) as nat),
                    ty: all[n - 1 - j],
                }),
        decreases k,
    {
        let ty = rest.pop().unwrap();
        k -= 1;
        let ghost before = fields@;
        fields.push(Field { name: decimal(k), ty });
        assert(forall|j: int| 0 <= j < n - k - 1 ==> fields@[j] == before[j]);
        assert(field_view(fields@.last()) == (FieldView {
            name: decimal_chars(k as nat),
            ty: all[k as int],
        }));
    }
    let mut ordered: Vec<Field> = Vec::new();
    let mut m: usize = 0;
    while m < n
        invariant
            m <= n,
            all.len() == n,
            fields@.len() == n - m,
            fields_view(ordered@) == tuple_schema(all).fields.take(m as int),
            forall|j: int|
                0 <= j < n - m ==> field_view(#[trigger] fields@[j]) == (FieldView {
                    name: decimal_chars((n - 1 - j) as nat),
                    ty: all[n - 1 - j],
                }),
        decreases n - m,
    {
        let ghost last = fields@[n - m - 1];
        let f = fields.pop().unwrap();
        let ghost before = ordered@;
        ordered.push(f);
        assert(ordered@.drop_last() =~= before);
        assert(field_view(f) == tuple_schema(all).fields[m as int]);
        assert(tuple_schema(all).fields.take(m + 1) =~= tuple_schema(all).fields.take(
            m as int,
        ).push(field_view(f)));
        m += 1;
    }
    assert(tuple_schema(all).fields.take(n as int) =~= tuple_schema(all).fields);
    Schema { name: "Tuple".to_owned(), fields: ordered, is_tuple: true }
}

/// The positional record type of a `Tuple<..>` reference, if all elements have
/// a canonical form.
pub open spec fn tuple_reference<R: TypeResolver>(resolver: R, t: TypeNode) -> Option<SchemaView> {
    if plain_reference(t) && t.path@[0]@ == "Tuple"@ {
        match canonical_all(resolver, t.generics@) {
            Some(elements) => Some(tuple_schema(elements)),
            None => None,
        }
    } else {
        None
    }
}

/// Executable form of [`tuple_reference`].
pub fn tuple_type_node_to_schema<R: TypeResolver>(t: &TypeNode, resolver: &R) -> (r: Option<Schema>)
    ensures
        match r {
            Some(s) => tuple_reference(*resolver, *t) == Some(schema_view(s)),
            None => tuple_reference(*resolver, *t) is None,
        },
    decreases t, 1nat,
{
    if t.path.len() != 1 || t.variant_fields.is_some() || !text_is(&t.path[0], "Tuple") {
        return None;
    }
    match canonical_elements(&t.generics, resolver) {
        Some(elements) => Some(tuple_of(elements)),
        None => None,
    }
}

/// Converts a type as written, resolving user-declared names.
pub fn type_node_to_canonical_with_schemas<R: TypeResolver>(t: &TypeNode, resolver: &R) -> (r:
    Option<TypeRepr>)
    ensures
        opt_type_view(r) == canonical(*resolver, *t),
    decreases t, 2nat,
{
    if t.path.len() != 1 || t.variant_fields.is_some() {
        return None;
    }
    let head: &String = &t.path[0];
    if is_removed_unit_null_type_name(head.as_str()) {
        return None;
    }
    let n: usize = t.generics.len();
    proof {
        if n > 0 {
            assert(decreases_to!(*t => t.generics));
            assert(decreases_to!(t.generics => t.generics@));
            assert(decreases_to!(t.generics@ => t.generics@[0]));
        }
        if n > 1 {
            assert(decreases_to!(t.generics@ => t.generics@[1]));
        }
    }
    let base: TypeRepr = if text_is(head, "Int") && n == 0 {
        TypeRepr::Int
    } else if text_is(head, "Float") && n == 0 {
        TypeRepr::Float
    } else if text_is(head, "Bool") && n == 0 {
        TypeRepr::Bool
    } else if text_is(head, "String") && n == 0 {
        TypeRepr::String
    } else if text_is(head, "List") && n == 1 {
        match type_node_to_canonical_with_schemas(&t.generics[0], resolver) {
            Some(e) => TypeRepr::List { element: Box::new(e) },
            None => {
                return None;
            },
        }
    } else if text_is(head, "Option") && n == 1 {
        match type_node_to_canonical_with_schemas(&t.generics[0], resolver) {
            Some(e) => TypeRepr::Option { inner: Box::new(e) },
            None => {
                return None;
            },
        }
    } else if text_is(head, "Result") && n == 2 {
        match (
            type_node_to_canonical_with_schemas(&t.generics[0], resolver),
            type_node_to_canonical_with_schemas(&t.generics[1], resolver),
        ) {
            (Some(ok), Some(err)) => TypeRepr::Result { ok: Box::new(ok), err: Box::new(err) },
            _ => {
                return None;
            },
        }
    } else if text_is(head, "Tuple") {
        match tuple_type_node_to_schema(t, resolver) {
            Some(s) => TypeRepr::Schema { schema: Box::new(s) },
            None => {
                return None;
            },
        }
    } else if is_builtin_head(head) {
        return None;
    } else {
        match resolver.resolve_type(t) {
            Some(ty) => ty,
            None => {
                return None;
            },
        }
    };
    Some(maybe_optional(t, base))
}

/// Converts a type as written that names builtins only.
pub fn type_node_to_canonical(t: &TypeNode) -> (r: Option<TypeRepr>)
    ensures
        opt_type_view(r) == canonical(NoSchemas, *t),
{
    type_node_to_canonical_with_schemas(t, &NoSchemas)
}

/// `List<X>` written as a plain reference with one parameter.
pub open spec fn list_reference(t: TypeNode) -> bool {
    plain_reference(t) && t.path@[0]@ == "List"@ && t.generics@.len() == 1
}

fn is_list_reference(t: &TypeNode) -> (r: bool)
    ensures
        r == list_reference(*t),
{
    t.path.len() == 1 && t.variant_fields.is_none() && text_is(&t.path[0], "List")
        && t.generics.len() == 1
}

/// The canonical form of a `List<List<..>>` return type.
pub open spec fn nested_list_return<R: TypeResolver>(resolver: R, t: TypeNode) -> Option<TypeView> {
    if list_reference(t) {
        match canonical(resolver, t.generics@[0]) {
            Some(inner) => if inner is List {
                Some(TypeView::List { element: Box::new(inner) })
            } else {
                None
            },
            None => None,
        }
    } else {
        None
    }
}

/// Executable form of [`nested_list_return`].
pub fn return_nested_list_canonical<R: TypeResolver>(t: &TypeNode, resolver: &R) -> (r: Option<
    TypeRepr,
>)
    ensures
        opt_type_view(r) == nested_list_return(*resolver, *t),
{
    if !is_list_reference(t) {
        return None;
    }
    match type_node_to_canonical_with_schemas(&t.generics[0], resolver) {
        Some(inner) => match inner {
            TypeRepr::List { .. } => Some(TypeRepr::List { element: Box::new(inner) }),
            _ => None,
        },
        None => None,
    }
}

/// The canonical form of a `List<Schema>` return type.
pub open spec fn list_schema_return<R: TypeResolver>(resolver: R, t: TypeNode) -> Option<TypeView> {
    if list_reference(t) {
        match canonical(resolver, t.generics@[0]) {
            Some(inner) => if inner is Schema {
                Some(TypeView::List { element: Box::new(inner) })
            } else {
                None
            },
            None => None,
        }
    } else {
        None
    }
}

/// Executable form of [`list_schema_return`].
pub fn return_list_schema_canonical<R: TypeResolver>(t: &TypeNode, resolver: &R) -> (r: Option<
    TypeRepr,
>)
    ensures
        opt_type_view(r) == list_schema_return(*resolver, *t),
{
    if !is_list_reference(t) {
        return None;
    }
    match type_node_to_canonical_with_schemas(&t.generics[0], resolver) {
        Some(inner) => match inner {
            TypeRepr::Schema { .. } => Some(TypeRepr::List { element: Box::new(inner) }),
            _ => None,
        },
        None => None,
    }
}

/// Texts joined by a separator.
pub open spec fn joined(parts: Seq<Seq<char>>, sep: Seq<char>) -> Seq<char>
    decreases parts.len(),
{
    if parts.len() == 0 {
        Seq::empty()
    } else if parts.len() == 1 {
        parts[0]
    } else {
        joined(parts.drop_last(), sep) + sep + parts.last()
    }
}

/// Joins strings by a separator.
pub fn join_texts(parts: &Vec<String>, sep: &str) -> (r: String)
    ensures
        r@ == joined(texts(parts@), sep@),
{
    let mut out: String = String::new();
    let mut i: usize = 0;
    let ghost all = texts(parts@);
    assert(all.take(0) =~= Seq::empty());
    while i < parts.len()
        invariant
            i <= parts.len(),
            all == texts(parts@),
            out@ == joined(all.take(i as int), sep@),
        decreases parts.len() - i,
    {
        assert(all.take(i + 1).drop_last() =~= all.take(i as int));
        assert(all.take(i + 1).last() == parts@[i as int]@);
        if i > 0 {
            out = out.concat(sep).concat(parts[i].as_str());
        } else {
            out = out.concat(parts[i].as_str());
            assert(out@ =~= parts@[0]@);
        }
        i += 1;
    }
    assert(all.take(parts@.len() as int) =~= all);
    out
}

/// A type as written, for diagnostics: its dotted head and its parameters.
pub open spec fn head_text(t: TypeNode) -> Seq<char>
    decreases t, 1nat,
{
    if t.path@.len() == 0 {
        "<empty>"@
    } else {
        let head = joined(texts(t.path@), "."@);
        if t.generics@.len() == 0 {
            head
        } else {
            head + "<"@ + heads_text(t.generics@) + ">"@
        }
    }
}

/// The parameters of a type, separated by commas.
pub open spec fn heads_text(ts: Seq<TypeNode>) -> Seq<char>
    decreases ts, 0nat,
{
    if ts.len() == 0 {
        Seq::empty()
    } else if ts.len() == 1 {
        head_text(ts[0])
    } else {
        heads_text(ts.drop_last()) + ", "@ + head_text(ts.last())
    }
}

/// Executable form of [`head_text`].
pub fn type_head_for_display(t: &TypeNode) -> (r: String)
    ensures
        r@ == head_text(*t),
    decreases t, 1nat,
{
    if t.path.len() == 0 {
        return "<empty>".to_owned();
    }
    let head: String = join_texts(&t.path, ".");
    if t.generics.len() == 0 {
        return head;
    }
    assert(decreases_to!(*t => t.generics));
    let params: String = heads_for_display(&t.generics);
    head.concat("<").concat(params.as_str()).concat(">")
}

fn heads_for_display(ts: &Vec<TypeNode>) -> (r: String)
    ensures
        r@ == heads_text(ts@),
    decreases ts, 0nat,
{
    let mut out: String = String::new();
    let mut i: usize = 0;
    assert(ts@.take(0) =~= Seq::empty());
    while i < ts.len()
        invariant
            i <= ts.len(),
            out@ == heads_text(ts@.take(i as int)),
        decreases ts.len() - i,
    {
        assert(ts@.take(i + 1).drop_last() =~= ts@.take(i as int));
        assert(ts@.take(i + 1).last() == ts@[i as int]);
        assert(decreases_to!(*ts => ts@));
        let shown: String = type_head_for_display(&ts[i]);
        if i > 0 {
            out = out.concat(", ").concat(shown.as_str());
        } else {
            out = out.concat(shown.as_str());
            assert(out@ =~= head_text(ts@[0]));
        }
        i += 1;
    }
    assert(ts@.take(ts@.len() as int) =~= ts@);
    out
}

/// The type names a closure; closures may not cross the entry boundary.
pub fn type_node_names_closure(t: &TypeNode) -> (r: bool)
    ensures
        r == (t.path@.len() == 1 && (t.path@[0]@ == "Closure"@ || t.path@[0]@ == "Fn"@)),
{
    t.path.len() == 1 && (text_is(&t.path[0], "Closure") || text_is(&t.path[0], "Fn"))
}

/// The type is a bare `Dict`.
pub fn type_node_is_bare_dict(t: &TypeNode) -> (r: bool)
    ensures
        r == (plain_reference(*t) && t.path@[0]@ == "Dict"@ && t.generics@.len() == 0),
{
    t.path.len() == 1 && text_is(&t.path[0], "Dict") && t.generics.len() == 0
        && t.variant_fields.is_none()
}

/// One entry parameter.
#[derive(Debug, PartialEq, Eq)]
pub struct MainParam {
    pub name: String,
    pub type_node: TypeNode,
}

/// The signature of the entry point.
#[derive(Debug, PartialEq, Eq)]
pub struct MainSignature {
    pub params: Vec<MainParam>,
    pub return_type: Option<TypeNode>,
    pub range: TokenRange,
}

/// The record fields of the entry parameters, or the type that has no
/// canonical form.
pub open spec fn param_fields<R: TypeResolver>(resolver: R, params: Seq<MainParam>) -> Result<
    Seq<FieldView>,
    ErrorView,
>
    decreases params.len(),
{
    if params.len() == 0 {
        Ok(Seq::empty())
    } else {
        match param_fields(resolver, params.drop_last()) {
            Err(e) => Err(e),
            Ok(init) => match canonical(resolver, params.last().type_node) {
                Some(ty) => Ok(init.push(FieldView { name: params.last().name@, ty })),
                None => Err(
                    ErrorView::UnsupportedTypeInMain {
                        ty: head_text(params.last().type_node),
                        range: params.last().type_node.range,
                    },
                ),
            },
        }
    }
}

proof fn lemma_param_fields_prefix<R: TypeResolver>(resolver: R, params: Seq<MainParam>, k: int)
    requires
        0 <= k <= params.len(),
        param_fields(resolver, params.take(k)) is Err,
    ensures
        param_fields(resolver, params) == param_fields(resolver, params.take(k)),
    decreases params.len(),
{
    if k == params.len() {
        assert(params.take(k) =~= params);
    } else {
        assert(params.drop_last().take(k) =~= params.take(k));
        lemma_param_fields_prefix(resolver, params.drop_last(), k);
    }
}

/// Builds the record type of the entry parameters; the first parameter without
/// a canonical type is reported.
pub fn build_main_params_schema<R: TypeResolver>(sig: &MainSignature, resolver: &R) -> (r: Result<
    Schema,
    LoweringError,
>)
    ensures
        match r {
            Ok(s) => param_fields(*resolver, sig.params@) == Ok::<Seq<FieldView>, ErrorView>(
                schema_view(s).fields,
            ) && s.name@ == main_params_name() && !s.is_tuple,
            Err(e) => param_fields(*resolver, sig.params@) == Err::<Seq<FieldView>, ErrorView>(e@),
        },
{
    let mut fields: Vec<Field> = Vec::new();
    let mut i: usize = 0;
    assert(sig.params@.take(0) =~= Seq::empty());
    while i < sig.params.len()
        invariant
            i <= sig.params.len(),
            param_fields(*resolver, sig.params@.take(i as int)) == Ok::<Seq<FieldView>, ErrorView>(
                fields_view(fields@),
            ),
        decreases sig.params.len() - i,
    {
        let p = &sig.params[i];
        assert(sig.params@.take(i + 1).drop_last() =~= sig.params@.take(i as int));
        assert(sig.params@.take(i + 1).last() == *p);
        match type_node_to_canonical_with_schemas(&p.type_node, resolver) {
            None => {
                proof {
                    lemma_param_fields_prefix(*resolver, sig.params@, i + 1);
                }
                return Err(
                    LoweringError::UnsupportedTypeInMain {
                        ty: type_head_for_display(&p.type_node),
                        range: p.type_node.range,
                    },
                );
            },
            Some(ty) => {
                let ghost before = fields@;
                fields.push(Field { name: p.name.clone(), ty });
                assert(fields@.drop_last() =~= before);
                assert(field_view(fields@.last()) == (FieldView {
                    name: p.name@,
                    ty: type_view(ty),
                }));
            },
        }
        i += 1;
    }
    assert(sig.params@.take(sig.params@.len() as int) =~= sig.params@);
    Ok(Schema { name: "MainParams".to_owned(), fields, is_tuple: false })
}

/// The canonical return type: that of the declared type.
pub open spec fn return_type<R: TypeResolver>(resolver: R, sig: MainSignature) -> Result<
    TypeView,
    ErrorView,
> {
    match sig.return_type {
        None => Err(
            ErrorView::UnsupportedTypeInMain { ty: "<missing>"@, range: sig.range },
        ),
        Some(t) => match canonical(resolver, t) {
            Some(ty) => Ok(ty),
            None => Err(ErrorView::UnsupportedTypeInMain { ty: head_text(t), range: t.range }),
        },
    }
}

/// Builds the record type of the returned value: one field of the canonical
/// return type.
pub fn build_main_return_schema<R: TypeResolver>(sig: &MainSignature, resolver: &R) -> (r: Result<
    Schema,
    LoweringError,
>)
    ensures
        match r {
            Ok(s) => (return_type(*resolver, *sig) matches Ok(ty) && schema_view(s) == (SchemaView {
                name: main_return_name(),
                fields: seq![FieldView { name: return_value_name(), ty }],
                is_tuple: false,
            })),
            Err(e) => return_type(*resolver, *sig) == Err::<TypeView, ErrorView>(e@),
        },
{
    let t = match &sig.return_type {
        Some(t) => t,
        None => {
            return Err(
                LoweringError::UnsupportedTypeInMain {
                    ty: "<missing>".to_owned(),
                    range: sig.range,
                },
            );
        },
    };
    proof {
        law_canonical_extends_builtin(*resolver, *t);
        law_return_shapes_covered(*resolver, *t);
    }
    let plain = type_node_to_canonical_with_schemas(t, resolver);
    let builtin = match plain {
        Some(ty) => Some(ty),
        None => type_node_to_canonical(t),
    };
    let nested = match builtin {
        Some(ty) => Some(ty),
        None => return_nested_list_canonical(t, resolver),
    };
    let found = match nested {
        Some(ty) => Some(ty),
        None => return_list_schema_canonical(t, resolver),
    };
    match found {
        Some(ty) => {
            let mut fields: Vec<Field> = Vec::new();
            fields.push(Field { name: "value".to_owned(), ty });
            assert(fields@.drop_last() =~= Seq::empty());
            assert(field_view(fields@.last()) == (FieldView {
                name: return_value_name(),
                ty: type_view(ty),
            }));
            assert(fields_view(Seq::<Field>::empty()) == Seq::<FieldView>::empty());
            assert(fields_view(fields@) =~= seq![
                FieldView { name: return_value_name(), ty: type_view(ty) },
            ]);
            Ok(Schema { name: "Ret".to_owned(), fields, is_tuple: false })
        },
        None => Err(
            LoweringError::UnsupportedTypeInMain { ty: type_head_for_display(t), range: t.range },
        ),
    }
}

/// Resolving user-declared names only adds answers: where the builtin-only
/// conversion answers, every resolver gives the same answer.
pub proof fn law_canonical_extends_builtin<R: TypeResolver>(resolver: R, t: TypeNode)
    ensures
        canonical(NoSchemas, t) is Some ==> canonical(resolver, t) == canonical(NoSchemas, t),
    decreases t, 1nat,
{
    if plain_reference(t) && !removed_head(t.path@[0]@) {
        let head = t.path@[0]@;
        let n = t.generics@.len();
        if n > 0 {
            assert(decreases_to!(t => t.generics));
            assert(decreases_to!(t.generics => t.generics@));
            assert(decreases_to!(t.generics@ => t.generics@[0]));
        }
        if n == 1 {
            law_canonical_extends_builtin(resolver, t.generics@[0]);
        }
        if n == 2 {
            assert(decreases_to!(t.generics@ => t.generics@[1]));
            law_canonical_extends_builtin(resolver, t.generics@[0]);
            law_canonical_extends_builtin(resolver, t.generics@[1]);
        }
        lemma_canonical_all_extends(resolver, t.generics@);
        assert(canonical_base(NoSchemas, t) is Some ==> canonical_base(resolver, t)
            == canonical_base(NoSchemas, t));
    }
}

proof fn lemma_canonical_all_extends<R: TypeResolver>(resolver: R, ts: Seq<TypeNode>)
    ensures
        canonical_all(NoSchemas, ts) is Some ==> canonical_all(resolver, ts) == canonical_all(
            NoSchemas,
            ts,
        ),
    decreases ts, 0nat,
{
    if ts.len() > 0 {
        lemma_canonical_all_extends(resolver, ts.drop_last());
        law_canonical_extends_builtin(resolver, ts.last());
    }
}

/// A nested-list or record-list return type that one of the return-side
/// conversions accepts also has a canonical form of its own, so these never
/// change the outcome.
pub proof fn law_return_shapes_covered<R: TypeResolver>(resolver: R, t: TypeNode)
    ensures
        canonical(resolver, t) is None ==> nested_list_return(resolver, t) is None
            && list_schema_return(resolver, t) is None,
{
    reveal_strlit("List");
    reveal_strlit("Null");
    reveal_strlit("Unit");
    reveal_strlit("Int");
    reveal_strlit("Float");
    reveal_strlit("Bool");
    reveal_strlit("String");
    if list_reference(t) {
        let head = t.path@[0]@;
        assert(head[0] == 'L');
        assert("Unit"@[0] == 'U' && "Null"@[0] == 'N');
        assert(!removed_head(head));
        assert("Int"@[0] == 'I' && "Float"@[0] == 'F' && "Bool"@[0] == 'B' && "String"@[0] == 'S');
    }
}

/// A tuple return type: absent for another head, and an error when an element
/// has no canonical form.
pub open spec fn tuple_return<R: TypeResolver>(resolver: R, t: TypeNode) -> Option<
    Result<SchemaView, ErrorView>,
> {
    if plain_reference(t) && t.path@[0]@ == "Tuple"@ {
        match first_unresolved(resolver, t.generics@, 0) {
            Some(i) => Some(
                Err(
                    ErrorView::UnsupportedTypeInMain {
                        ty: "Tuple element `"@ + head_text(t.generics@[i]) + "`"@,
                        range: t.generics@[i].range,
                    },
                ),
            ),
            None => Some(Ok(tuple_schema(canonical_all(resolver, t.generics@)->0))),
        }
    } else {
        None
    }
}

/// The least index at or behind `from` of a type without canonical form.
pub open spec fn first_unresolved<R: TypeResolver>(
    resolver: R,
    ts: Seq<TypeNode>,
    from: int,
) -> Option<
    int,
>
    decreases ts.len() - from,
{
    if from < 0 || from >= ts.len() {
        None
    } else if canonical(resolver, ts[from]) is None {
        Some(from)
    } else {
        first_unresolved(resolver, ts, from + 1)
    }
}

/// All types have a canonical form exactly when none is unresolved.
proof fn lemma_first_unresolved<R: TypeResolver>(resolver: R, ts: Seq<TypeNode>, from: int)
    requires
        0 <= from <= ts.len(),
        canonical_all(resolver, ts.take(from)) is Some,
    ensures
        first_unresolved(resolver, ts, from) is None <==> canonical_all(resolver, ts) is Some,
    decreases ts.len() - from,
{
    if from == ts.len() {
        assert(ts.take(from) =~= ts);
    } else {
        assert(ts.take(from + 1).drop_last() =~= ts.take(from));
        assert(ts.take(from + 1).last() == ts[from]);
        if canonical(resolver, ts[from]) is None {
            lemma_canonical_all_prefix(resolver, ts, from + 1);
        } else {
            lemma_first_unresolved(resolver, ts, from + 1);
        }
    }
}

/// A tuple return type is accepted exactly when the tuple has a canonical form,
/// and then as that form.
pub proof fn law_tuple_return_agrees<R: TypeResolver>(resolver: R, t: TypeNode)
    ensures
        match tuple_return(resolver, t) {
            None => tuple_reference(resolver, t) is None,
            Some(Ok(s)) => tuple_reference(resolver, t) == Some(s),
            Some(Err(_)) => tuple_reference(resolver, t) is None,
        },
{
    assert(t.generics@.take(0) =~= Seq::empty());
    lemma_first_unresolved(resolver, t.generics@, 0);
}

/// Executable form of [`tuple_return`].
pub fn return_tuple_canonical<R: TypeResolver>(t: &TypeNode, resolver: &R) -> (r: Option<
    Result<Schema, LoweringError>,
>)
    ensures
        match r {
            None => tuple_return(*resolver, *t) is None,
            Some(Ok(s)) => tuple_return(*resolver, *t) == Some(
                Ok::<SchemaView, ErrorView>(schema_view(s)),
            ),
            Some(Err(e)) => tuple_return(*resolver, *t) == Some(Err::<SchemaView, ErrorView>(e@)),
        },
{
    if t.path.len() != 1 || t.variant_fields.is_some() || !text_is(&t.path[0], "Tuple") {
        return None;
    }
    let mut elements: Vec<TypeRepr> = Vec::new();
    let mut i: usize = 0;
    assert(t.generics@.take(0) =~= Seq::empty());
    assert(types_view(elements@) =~= Seq::empty());
    while i < t.generics.len()
        invariant
            i <= t.generics.len(),
            plain_reference(*t),
            t.path@[0]@ == "Tuple"@,
            canonical_all(*resolver, t.generics@.take(i as int)) == Some(types_view(elements@)),
            first_unresolved(*resolver, t.generics@, i as int) == first_unresolved(
                *resolver,
                t.generics@,
                0,
            ),
        decreases t.generics.len() - i,
    {
        assert(t.generics@.take(i + 1).drop_last() =~= t.generics@.take(i as int));
        assert(t.generics@.take(i + 1).last() == t.generics@[i as int]);
        match type_node_to_canonical_with_schemas(&t.generics[i], resolver) {
            None => {
                let shown: String = type_head_for_display(&t.generics[i]);
                return Some(
                    Err(
                        LoweringError::UnsupportedTypeInMain {
                            ty: join3("Tuple element `", shown.as_str(), "`"),
                            range: t.generics[i].range,
                        },
                    ),
                );
            },
            Some(e) => {
                let ghost before = types_view(elements@);
                elements.push(e);
                assert(types_view(elements@) =~= before.push(type_view(e)));
            },
        }
        i += 1;
    }
    assert(t.generics@.take(t.generics@.len() as int) =~= t.generics@);
    Some(Ok(tuple_of(elements)))
}

} // verus!

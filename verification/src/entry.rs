//! Lowering of an entry module: the record types of its parameters and of what
//! it returns, and the function that computes the one from the other.

use vstd::prelude::*;

use crate::ast::{Node, TypeNode};
use crate::canonical::{
    build_main_params_schema, build_main_return_schema, builtin_head, is_builtin_head,
    main_params_name, main_return_name, param_fields, plain_reference, return_tuple_canonical,
    return_type, return_value_name, tuple_return, type_node_names_closure, MainParam, MainSignature,
    table_index, SchemaTable,
};
use crate::decorators::{
    bad_field_decorator, body_desugared, desugar_anon_dict_decorators, dict_pairs,
    nothing_to_desugar, Desugared,
};
use crate::dict_plan::{
    anon_dict_return_plan, opt_plan_view, order_in_range, plan_outcome, AnonDictPlan,
    ClosurePlanner, PlanView,
};
use crate::error::{ErrorView, LoweringError};
use crate::text::join3;
use crate::types::{
    copy_schema, lemma_fields_view, schema_view, FieldView, Schema, SchemaView, TypeRepr,
};
use crate::workspace::SchemaDef;

verus! {

// ---------------------------------------------------------------------------
// The signature.
// ---------------------------------------------------------------------------

/// The type names a closure.
pub open spec fn names_closure(t: TypeNode) -> bool {
    t.path@.len() == 1 && (t.path@[0]@ == "Closure"@ || t.path@[0]@ == "Fn"@)
}

/// The least index at or behind `from` of a parameter of closure type.
pub open spec fn closure_param(params: Seq<MainParam>, from: int) -> Option<int>
    decreases params.len() - from,
{
    if from < 0 || from >= params.len() {
        None
    } else if names_closure(params[from].type_node) {
        Some(from)
    } else {
        closure_param(params, from + 1)
    }
}

/// The error for a closure in the signature; none may cross the boundary.
pub open spec fn closure_at_boundary(sig: MainSignature) -> Option<ErrorView> {
    match closure_param(sig.params@, 0) {
        Some(i) => Some(
            ErrorView::ClosureAcrossBoundary {
                context: "`#main` parameter `"@ + sig.params@[i].name@ + "`"@,
                range: sig.params@[i].type_node.range,
            },
        ),
        None => match sig.return_type {
            Some(t) => if names_closure(t) {
                Some(
                    ErrorView::ClosureAcrossBoundary {
                        context: "`#main` return type"@,
                        range: t.range,
                    },
                )
            } else {
                None
            },
            None => None,
        },
    }
}

fn check_closures(sig: &MainSignature) -> (r: Result<(), LoweringError>)
    ensures
        match r {
            Ok(_) => closure_at_boundary(*sig) is None,
            Err(e) => closure_at_boundary(*sig) == Some(e@),
        },
{
    let mut i: usize = 0;
    while i < sig.params.len()
        invariant
            i <= sig.params@.len(),
            closure_param(sig.params@, 0) == closure_param(sig.params@, i as int),
        decreases sig.params@.len() - i,
    {
        let p = &sig.params[i];
        if type_node_names_closure(&p.type_node) {
            return Err(
                LoweringError::ClosureAcrossBoundary {
                    context: join3("`#main` parameter `", p.name.as_str(), "`"),
                    range: p.type_node.range,
                },
            );
        }
        i += 1;
    }
    match &sig.return_type {
        Some(t) => {
            if type_node_names_closure(t) {
                return Err(
                    LoweringError::ClosureAcrossBoundary {
                        context: "`#main` return type".to_owned(),
                        range: t.range,
                    },
                );
            }
        },
        None => {},
    }
    Ok(())
}

/// The declared record type of the name.
pub open spec fn record_named(types: Seq<(String, &SchemaDef)>, name: Seq<char>) -> Option<Schema> {
    match table_index(types, name, 0) {
        Some(i) => match types[i].1.shape {
            Ok(TypeRepr::Schema { schema }) => Some(*schema),
            _ => None,
        },
        None => None,
    }
}

fn find_record<'a>(types: &SchemaTable<'a>, name: &String) -> (r: Option<&'a Schema>)
    ensures
        match r {
            Some(s) => record_named(types.entries@, name@) == Some(*s),
            None => record_named(types.entries@, name@) is None,
        },
{
    match types.find(name.as_str()) {
        Some(def) => match &def.shape {
            Ok(TypeRepr::Schema { schema }) => Some(&**schema),
            _ => None,
        },
        None => None,
    }
}

/// The type is a plain name that no builtin bears.
pub open spec fn names_declared(t: TypeNode) -> bool {
    plain_reference(t) && t.generics@.len() == 0 && !t.is_optional && !builtin_head(t.path@[0]@)
}

/// The declared record type that the return type names.
pub open spec fn returned_schema(types: Seq<(String, &SchemaDef)>, t: Option<TypeNode>) -> Option<
    Schema,
> {
    match t {
        Some(t) => if names_declared(t) {
            record_named(types, t.path@[0]@)
        } else {
            None
        },
        None => None,
    }
}

/// Finds the declared record type that the return type names.
pub fn resolve_return_user_schema<'a>(t: &Option<TypeNode>, types: &SchemaTable<'a>) -> (r: Option<
    &'a Schema,
>)
    ensures
        match r {
            Some(s) => returned_schema(types.entries@, *t) == Some(*s),
            None => returned_schema(types.entries@, *t) is None,
        },
{
    match t {
        Some(t) => if t.path.len() == 1 && t.variant_fields.is_none() && t.generics.len() == 0
            && !t.is_optional && !is_builtin_head(&t.path[0]) {
            find_record(types, &t.path[0])
        } else {
            None
        },
        None => None,
    }
}

/// How a value is returned: as a declared record, as a tuple, or by its type.
pub ghost enum ReturnKind {
    Record(Schema),
    Tuple(SchemaView),
    Open,
}

/// How the entry point returns its value.
pub open spec fn return_kind(types: SchemaTable<'_>, sig: MainSignature) -> Result<
    ReturnKind,
    ErrorView,
> {
    match returned_schema(types.entries@, sig.return_type) {
        Some(s) => if s.is_tuple {
            Ok(ReturnKind::Tuple(schema_view(s)))
        } else {
            Ok(ReturnKind::Record(s))
        },
        None => match sig.return_type {
            Some(t) => match tuple_return(types, t) {
                Some(Err(e)) => Err(e),
                Some(Ok(v)) => Ok(ReturnKind::Tuple(v)),
                None => Ok(ReturnKind::Open),
            },
            None => Ok(ReturnKind::Open),
        },
    }
}

// ---------------------------------------------------------------------------
// The plan of an entry.
// ---------------------------------------------------------------------------

/// The form of the returned value.
#[derive(Debug, PartialEq, Eq)]
pub enum ReturnShape {
    /// A dictionary of a declared record type.
    Record,
    /// A tuple.
    Tuple,
    /// A dictionary whose fields are classified one by one.
    Fields(AnonDictPlan),
    /// A value in a record of one field.
    Value,
}

/// The record types of the parameters and of what is returned, the form of the
/// returned value, and the body.
#[derive(Debug, PartialEq, Eq)]
pub struct EntryPlan {
    pub main_schema: Schema,
    pub return_schema: Schema,
    pub shape: ReturnShape,
    pub root: Node,
}

impl EntryPlan {
    /// A classified dictionary is emitted within its fields, and a value has a
    /// field to be stored in.
    pub open spec fn wf(self) -> bool {
        match self.shape {
            ReturnShape::Fields(plan) => order_in_range(plan) && self.return_schema.fields@.len()
                == plan.schema.fields@.len(),
            ReturnShape::Value => self.return_schema.fields@.len() == 1,
            _ => true,
        }
    }
}

/// The record type of the parameters.
pub open spec fn main_params(types: SchemaTable<'_>, sig: MainSignature) -> Result<
    SchemaView,
    ErrorView,
> {
    match param_fields(types, sig.params@) {
        Ok(fields) => Ok(SchemaView { name: main_params_name(), fields, is_tuple: false }),
        Err(e) => Err(e),
    }
}

/// The record type around a value.
pub open spec fn value_schema(types: SchemaTable<'_>, sig: MainSignature) -> Result<
    SchemaView,
    ErrorView,
> {
    match return_type(types, sig) {
        Ok(ty) => Ok(
            SchemaView {
                name: main_return_name(),
                fields: seq![FieldView { name: return_value_name(), ty }],
                is_tuple: false,
            },
        ),
        Err(e) => Err(e),
    }
}

/// The plan has the record types, or they have an error.
pub open spec fn plan_has(
    r: Result<EntryPlan, LoweringError>,
    main: Result<SchemaView, ErrorView>,
    returned: Result<SchemaView, ErrorView>,
    root: Node,
) -> bool {
    match (main, returned) {
        (Err(e), _) => r matches Err(got) && got@ == e,
        (_, Err(e)) => r matches Err(got) && got@ == e,
        (Ok(m), Ok(v)) => r matches Ok(p) && schema_view(p.main_schema) == m && schema_view(
            p.return_schema,
        ) == v && p.root == root,
    }
}

/// The outcome of planning an entry that returns its value by its type, whose
/// body has no decorated fields.
pub open spec fn open_planned<P: ClosurePlanner>(
    planner: P,
    types: SchemaTable<'_>,
    sig: MainSignature,
    root: Node,
    r: Result<EntryPlan, LoweringError>,
) -> bool {
    exists|plan: Result<Option<PlanView>, ErrorView>|
        #[trigger] plan_outcome(planner, types, sig, root, plan) && match plan {
            Err(e) => r matches Err(got) && got@ == e,
            Ok(Some(v)) => {
                &&& plan_has(r, main_params(types, sig), Ok(v.schema), root)
                &&& r matches Ok(p) ==> (p.shape matches ReturnShape::Fields(f) && f@ == v)
            },
            Ok(None) => {
                &&& plan_has(r, main_params(types, sig), value_schema(types, sig), root)
                &&& r matches Ok(p) ==> p.shape is Value
            },
        }
}

/// The body after its decorated fields have been rewritten.
pub open spec fn rewritten(before: Node, after: Node) -> bool {
    if nothing_to_desugar(before) {
        after == before
    } else {
        body_desugared(before, after)
    }
}

/// The error for a decorator that cannot be rewritten.
pub open spec fn decorator_refused(root: Node) -> Option<ErrorView> {
    if nothing_to_desugar(root) {
        None
    } else {
        bad_field_decorator(dict_pairs(root)->0, 0)
    }
}

/// The outcome of planning an entry.
pub open spec fn entry_planned<P: ClosurePlanner>(
    planner: P,
    types: SchemaTable<'_>,
    sig: MainSignature,
    root: Node,
    r: Result<EntryPlan, LoweringError>,
) -> bool {
    match closure_at_boundary(sig) {
        Some(e) => r matches Err(got) && got@ == e,
        None => match return_kind(types, sig) {
            Err(e) => r matches Err(got) && got@ == e,
            Ok(ReturnKind::Record(s)) => {
                &&& plan_has(r, main_params(types, sig), Ok(schema_view(s)), root)
                &&& r matches Ok(p) ==> p.shape is Record
            },
            Ok(ReturnKind::Tuple(v)) => {
                &&& plan_has(r, main_params(types, sig), Ok(v), root)
                &&& r matches Ok(p) ==> p.shape is Tuple
            },
            Ok(ReturnKind::Open) => match decorator_refused(root) {
                Some(e) => r matches Err(got) && got@ == e,
                None => exists|body: Node| #[trigger]
                    rewritten(root, body) && open_planned(planner, types, sig, body, r),
            },
        },
    }
}

fn plan_with(
    sig: &MainSignature,
    types: &SchemaTable<'_>,
    returned: Schema,
    shape: ReturnShape,
    root: Node,
) -> (r: Result<EntryPlan, LoweringError>)
    ensures
        plan_has(
            r,
            main_params(*types, *sig),
            Ok::<SchemaView, ErrorView>(schema_view(returned)),
            root,
        ),
        r matches Ok(p) ==> p.shape == shape && p.return_schema == returned,
{
    match build_main_params_schema(sig, types) {
        Err(e) => Err(e),
        Ok(main_schema) => Ok(EntryPlan { main_schema, return_schema: returned, shape, root }),
    }
}

fn plan_open_entry<P: ClosurePlanner>(
    sig: &MainSignature,
    root: Node,
    types: &SchemaTable<'_>,
    planner: &P,
) -> (r: Result<EntryPlan, LoweringError>)
    ensures
        open_planned(*planner, *types, *sig, root, r),
        r matches Ok(p) ==> p.wf(),
{
    let planned = anon_dict_return_plan(sig, &root, types, planner);
    let ghost seen = opt_plan_view(planned);
    assert(plan_outcome(*planner, *types, *sig, root, seen));
    match planned {
        Err(e) => Err(e),
        Ok(Some(plan)) => {
            let returned: Schema = copy_schema(&plan.schema);
            proof {
                lemma_fields_view(returned.fields@);
                lemma_fields_view(plan.schema.fields@);
            }
            plan_with(sig, types, returned, ReturnShape::Fields(plan), root)
        },
        Ok(None) => match build_main_params_schema(sig, types) {
            Err(e) => Err(e),
            Ok(main_schema) => match build_main_return_schema(sig, types) {
                Err(e) => Err(e),
                Ok(return_schema) => {
                    proof {
                        lemma_fields_view(return_schema.fields@);
                    }
                    Ok(EntryPlan { main_schema, return_schema, shape: ReturnShape::Value, root })
                },
            },
        },
    }
}

/// Plans an entry: its signature is checked, the form of the returned value is
/// told, and the record types are built.
pub fn plan_entry<P: ClosurePlanner>(
    sig: &MainSignature,
    root: Node,
    types: &SchemaTable<'_>,
    planner: &P,
) -> (r: Result<EntryPlan, LoweringError>)
    ensures
        entry_planned(*planner, *types, *sig, root, r),
        r matches Ok(p) ==> p.wf(),
{
    match check_closures(sig) {
        Err(e) => {
            return Err(e);
        },
        Ok(_) => {},
    }
    match resolve_return_user_schema(&sig.return_type, types) {
        Some(s) => {
            let shape: ReturnShape = if s.is_tuple {
                ReturnShape::Tuple
            } else {
                ReturnShape::Record
            };
            return plan_with(sig, types, copy_schema(s), shape, root);
        },
        None => {},
    }
    match &sig.return_type {
        Some(t) => match return_tuple_canonical(t, types) {
            Some(Err(e)) => {
                return Err(e);
            },
            Some(Ok(s)) => {
                return plan_with(sig, types, s, ReturnShape::Tuple, root);
            },
            None => {},
        },
        None => {},
    }
    match desugar_anon_dict_decorators(root) {
        Err(e) => Err(e),
        Ok(d) => {
            let Desugared { root: body, .. } = d;
            assert(rewritten(root, body));
            plan_open_entry(sig, body, types, planner)
        },
    }
}

} // verus!

use relon_ir::ast::{Expr, Node, TokenKey, TokenRange, TypeNode};
use relon_ir::canonical::{
    build_main_params_schema, build_main_return_schema, is_removed_unit_null_type_name,
    return_tuple_canonical, type_head_for_display, type_node_is_bare_dict, type_node_names_closure,
    type_node_to_canonical, type_node_to_canonical_with_schemas, MainParam, MainSignature,
    NoSchemas, SchemaTable,
};
use relon_ir::error::LoweringError;
use relon_ir::ir::IrType;
use relon_ir::shape::{
    cross_region_list_envelope, ir_type_to_type_repr, list_schema_subrecord_in_s4_scope,
    pointer_array_list_ir_type, pointer_indirect_ir_type, type_node_to_ir_type,
    type_repr_to_ir_type,
};
use relon_ir::types::{describe_type, same_type, EnumVariant, Field, Schema, TypeRepr};
use relon_ir::variant::{
    align_up_for_lowering, enum_path_matches, payload_slot_layout_for_lowering,
    standard_variant_shape, variant_body_pairs, variant_name_from_path,
    variant_payload_offset_for_lowering, variant_record_alignment_for_lowering,
};
use relon_ir::workspace::{SchemaDef, SchemaInstance};

const R: TokenRange = TokenRange { start: 0, end: 0 };

fn named(head: &str, generics: Vec<TypeNode>) -> TypeNode {
    TypeNode {
        path: vec![head.to_string()],
        generics,
        is_optional: false,
        variant_fields: None,
        range: R,
    }
}

fn list(element: TypeRepr) -> TypeRepr {
    TypeRepr::List { element: Box::new(element) }
}

fn option(inner: TypeRepr) -> TypeRepr {
    TypeRepr::Option { inner: Box::new(inner) }
}

fn result(ok: TypeRepr, err: TypeRepr) -> TypeRepr {
    TypeRepr::Result { ok: Box::new(ok), err: Box::new(err) }
}

fn record(name: &str, fields: Vec<(&str, TypeRepr)>) -> Schema {
    Schema {
        name: name.to_string(),
        fields: fields.into_iter().map(|(n, ty)| Field { name: n.to_string(), ty }).collect(),
        is_tuple: false,
    }
}

fn shape_enum() -> TypeRepr {
    TypeRepr::Enum {
        name: "Shape".to_string(),
        variants: vec![
            EnumVariant { name: "Dot".to_string(), tag: 0, payload: None },
            EnumVariant {
                name: "Circle".to_string(),
                tag: 3,
                payload: Some(Box::new(TypeRepr::Float)),
            },
        ],
    }
}

#[test]
fn builtin_types_have_a_canonical_form() {
    assert_eq!(type_node_to_canonical(&named("Int", vec![])), Some(TypeRepr::Int));
    assert_eq!(
        type_node_to_canonical(&named("List", vec![named("String", vec![])])),
        Some(list(TypeRepr::String))
    );
    assert_eq!(
        type_node_to_canonical(&named("Result", vec![named("Int", vec![]), named("Bool", vec![])])),
        Some(result(TypeRepr::Int, TypeRepr::Bool))
    );
    let mut optional = named("Float", vec![]);
    optional.is_optional = true;
    assert_eq!(type_node_to_canonical(&optional), Some(option(TypeRepr::Float)));
    assert_eq!(type_node_to_canonical(&named("User", vec![])), None);
    assert_eq!(type_node_to_canonical(&named("Int", vec![named("Int", vec![])])), None);
}

#[test]
fn declared_types_resolve_through_the_table() {
    let user = SchemaDef {
        name: Some("User".to_string()),
        variants: Vec::new(),
        local: None,
        shape: Ok(TypeRepr::Schema {
            schema: Box::new(record("User", vec![("id", TypeRepr::Int)])),
        }),
        instances: Vec::new(),
    };
    let types = SchemaTable { entries: vec![("User".to_string(), &user)] };
    assert_eq!(
        type_node_to_canonical_with_schemas(&named("List", vec![named("User", vec![])]), &types),
        Some(list(TypeRepr::Schema {
            schema: Box::new(record("User", vec![("id", TypeRepr::Int)]))
        }))
    );
    assert_eq!(type_node_to_canonical_with_schemas(&named("Other", vec![]), &types), None);
}

#[test]
fn a_declared_type_is_applied_to_arguments() {
    let boxed = |ty: TypeRepr| TypeRepr::Schema {
        schema: Box::new(record("Box", vec![("value", ty)])),
    };
    let instance = |arg: TypeNode, ty: TypeRepr| SchemaInstance { args: vec![arg], form: boxed(ty) };
    let def = SchemaDef {
        name: Some("Box".to_string()),
        variants: Vec::new(),
        local: None,
        shape: Err(LoweringError::MissingMain { module: "main".to_string() }),
        instances: vec![
            instance(named("Int", vec![]), TypeRepr::Int),
            instance(named("List", vec![named("Bool", vec![])]), list(TypeRepr::Bool)),
        ],
    };
    let types = SchemaTable { entries: vec![("Box".to_string(), &def)] };
    let resolve = |args: Vec<TypeNode>| {
        type_node_to_canonical_with_schemas(&named("Box", args), &types)
    };
    assert_eq!(resolve(vec![named("Int", vec![])]), Some(boxed(TypeRepr::Int)));
    assert_eq!(
        resolve(vec![named("List", vec![named("Bool", vec![])])]),
        Some(boxed(list(TypeRepr::Bool)))
    );
    assert_eq!(resolve(vec![named("List", vec![named("Int", vec![])])]), None);
    assert_eq!(resolve(vec![]), None);
    assert_eq!(
        type_node_to_canonical_with_schemas(
            &named("List", vec![named("Box", vec![named("Int", vec![])])]),
            &types
        ),
        Some(list(boxed(TypeRepr::Int)))
    );
}

#[test]
fn a_tuple_is_a_positional_record() {
    let t = named("Tuple", vec![named("Int", vec![]), named("Bool", vec![])]);
    match type_node_to_canonical(&t) {
        Some(TypeRepr::Schema { schema }) => {
            assert!(schema.is_tuple);
            let names: Vec<&str> = schema.fields.iter().map(|f| f.name.as_str()).collect();
            assert_eq!(names, vec!["0", "1"]);
        }
        other => panic!("expected a record, got {:?}", other),
    }
    match return_tuple_canonical(&t, &NoSchemas) {
        Some(Ok(schema)) => assert_eq!(schema.fields.len(), 2),
        other => panic!("expected a tuple, got {:?}", other),
    }
    assert_eq!(return_tuple_canonical(&named("Int", vec![]), &NoSchemas), None);
}

#[test]
fn removed_type_names_have_no_form() {
    assert!(is_removed_unit_null_type_name("Null"));
    assert!(!is_removed_unit_null_type_name("Int"));
    assert_eq!(type_node_to_canonical(&named("Null", vec![])), None);
}

#[test]
fn closures_are_found_in_a_type() {
    assert!(type_node_names_closure(&named("Closure", vec![])));
    assert!(!type_node_names_closure(&named("Int", vec![])));
    assert!(type_node_is_bare_dict(&named("Dict", vec![])));
    assert!(!type_node_is_bare_dict(&named("List", vec![])));
    assert_eq!(type_head_for_display(&named("List", vec![named("Int", vec![])])), "List<Int>");
}

fn signature(params: Vec<(&str, TypeNode)>, returns: Option<TypeNode>) -> MainSignature {
    MainSignature {
        params: params
            .into_iter()
            .map(|(n, type_node)| MainParam { name: n.to_string(), type_node })
            .collect(),
        return_type: returns,
        range: R,
    }
}

#[test]
fn parameters_make_a_record() {
    let sig = signature(
        vec![("x", named("Int", vec![])), ("ok", named("Bool", vec![]))],
        Some(named("Int", vec![])),
    );
    let params = build_main_params_schema(&sig, &NoSchemas).unwrap();
    assert_eq!(params.name, "MainParams");
    assert_eq!(
        params.fields,
        vec![
            Field { name: "x".to_string(), ty: TypeRepr::Int },
            Field { name: "ok".to_string(), ty: TypeRepr::Bool },
        ]
    );
    let ret = build_main_return_schema(&sig, &NoSchemas).unwrap();
    assert_eq!(ret.name, "Ret");
    assert_eq!(ret.fields.len(), 1);
    assert_eq!(ret.fields[0].ty, TypeRepr::Int);
}

#[test]
fn an_unknown_parameter_type_is_rejected() {
    let sig = signature(vec![("x", named("Blob", vec![]))], Some(named("Int", vec![])));
    assert!(matches!(
        build_main_params_schema(&sig, &NoSchemas),
        Err(LoweringError::UnsupportedTypeInMain { .. })
    ));
}

#[test]
fn instruction_types_come_back() {
    for t in [IrType::I64, IrType::F64, IrType::Bool, IrType::String, IrType::ListInt] {
        let repr = ir_type_to_type_repr(t).expect("a type");
        assert_eq!(type_repr_to_ir_type(&repr), Ok(t));
    }
    assert!(type_repr_to_ir_type(&TypeRepr::Closure).is_err());
    assert_eq!(type_repr_to_ir_type(&option(TypeRepr::Int)), Ok(IrType::I32));
    assert_eq!(type_node_to_ir_type(&named("Int", vec![])), Some(IrType::I64));
    assert_eq!(type_node_to_ir_type(&named("Blob", vec![])), None);
}

#[test]
fn pointer_arrays_are_indirect() {
    for t in [IrType::ListString, IrType::ListSchema, IrType::ListList] {
        assert!(pointer_array_list_ir_type(t));
        assert!(pointer_indirect_ir_type(t));
    }
    assert!(!pointer_array_list_ir_type(IrType::ListInt));
    assert!(!pointer_indirect_ir_type(IrType::I64));
}

#[test]
fn record_lists_of_scalars_are_walked_in_place() {
    let flat = list(TypeRepr::Schema {
        schema: Box::new(record("P", vec![("x", TypeRepr::Int), ("y", TypeRepr::Float)])),
    });
    assert!(list_schema_subrecord_in_s4_scope(&flat));
    assert!(!list_schema_subrecord_in_s4_scope(&list(TypeRepr::Int)));
    assert!(cross_region_list_envelope(&list(TypeRepr::Int)));
    assert!(!cross_region_list_envelope(&TypeRepr::Int));
}

#[test]
fn offsets_are_aligned_up() {
    assert_eq!(align_up_for_lowering(0, 8), 0);
    assert_eq!(align_up_for_lowering(1, 8), 8);
    assert_eq!(align_up_for_lowering(8, 8), 8);
    assert_eq!(align_up_for_lowering(9, 4), 12);
    assert_eq!(align_up_for_lowering(7, 1), 7);
    assert_eq!(align_up_for_lowering(7, 0), 7);
}

#[test]
fn payloads_lie_behind_the_tag() {
    assert_eq!(payload_slot_layout_for_lowering(&TypeRepr::Int), Ok((8, 8)));
    assert_eq!(payload_slot_layout_for_lowering(&TypeRepr::Bool), Ok((1, 1)));
    assert_eq!(payload_slot_layout_for_lowering(&TypeRepr::String), Ok((4, 4)));
    assert!(payload_slot_layout_for_lowering(&TypeRepr::Closure).is_err());
    assert_eq!(variant_payload_offset_for_lowering(&TypeRepr::Int), Ok(8));
    assert_eq!(variant_payload_offset_for_lowering(&TypeRepr::Bool), Ok(1));
    assert_eq!(variant_payload_offset_for_lowering(&TypeRepr::String), Ok(4));
    assert_eq!(variant_record_alignment_for_lowering(&option(TypeRepr::Int)), Ok(8));
    assert_eq!(variant_record_alignment_for_lowering(&option(TypeRepr::Bool)), Ok(4));
    assert_eq!(
        variant_record_alignment_for_lowering(&result(TypeRepr::Bool, TypeRepr::Float)),
        Ok(8)
    );
    assert!(variant_record_alignment_for_lowering(&TypeRepr::Int).is_err());
}

fn key(name: &str) -> TokenKey {
    TokenKey::String(name.to_string(), R, false)
}

#[test]
fn variants_are_named_by_their_path() {
    let opt = option(TypeRepr::Int);
    assert_eq!(variant_name_from_path(&opt, &vec![key("None")], false), Some("None".to_string()));
    assert_eq!(variant_name_from_path(&opt, &vec![key("None")], true), None);
    assert_eq!(variant_name_from_path(&opt, &vec![key("Some")], true), Some("Some".to_string()));
    let shape = shape_enum();
    let dotted = vec![key("Shape"), key("Circle")];
    assert_eq!(variant_name_from_path(&shape, &dotted, true), Some("Circle".to_string()));
    assert_eq!(variant_name_from_path(&shape, &vec![key("Other"), key("Dot")], false), None);
    assert!(enum_path_matches("Shape", None));
    assert!(enum_path_matches("Shape", Some(&vec!["Shape".to_string()])));
    assert!(!enum_path_matches("Shape", Some(&vec!["Other".to_string()])));
}

#[test]
fn variants_have_a_tag_and_a_payload() {
    let opt = option(TypeRepr::Int);
    let none = standard_variant_shape(&opt, None, "None", R).unwrap();
    assert_eq!(none.tag, 0);
    assert!(none.payload.is_none());
    let some = standard_variant_shape(&opt, None, "Some", R).unwrap();
    assert_eq!(some.tag, 1);
    assert_eq!(*some.payload.unwrap().ty, TypeRepr::Int);
    let shape = shape_enum();
    assert_eq!(standard_variant_shape(&shape, None, "Circle", R).unwrap().tag, 3);
    assert!(standard_variant_shape(&shape, None, "Square", R).is_err());
}

#[test]
fn a_variant_body_is_a_dictionary() {
    let body = |expr: Expr| Node {
        expr: Box::new(expr),
        range: R,
        directives: Vec::new(),
        decorators: Vec::new(),
        type_hint: None,
    };
    assert_eq!(variant_body_pairs(&body(Expr::Dict(Vec::new())), R).unwrap().len(), 0);
    assert!(variant_body_pairs(&body(Expr::Int(1)), R).is_err());
}

#[test]
fn types_are_compared_by_structure() {
    let a = record("P", vec![("x", TypeRepr::Int)]);
    let b = record("P", vec![("x", TypeRepr::Float)]);
    let wrap = |s: Schema| TypeRepr::Schema { schema: Box::new(s) };
    assert!(same_type(&wrap(record("P", vec![("x", TypeRepr::Int)])), &wrap(a)));
    assert!(!same_type(&wrap(record("P", vec![("x", TypeRepr::Int)])), &wrap(b)));
    assert!(same_type(&list(TypeRepr::Int), &list(TypeRepr::Int)));
    assert!(!same_type(&list(TypeRepr::Int), &option(TypeRepr::Int)));
    assert_eq!(describe_type(&wrap(record("P", vec![]))), "Schema P");
    assert_eq!(
        describe_type(&list(option(result(TypeRepr::Int, TypeRepr::Bool)))),
        "List { element: Option { inner: Result { ok: Int, err: Bool } } }"
    );
}

use relon_ir::ast::{CallArg, Expr, Node, TokenKey, TokenRange};
use relon_ir::error::LoweringError;
use relon_ir::fragment::{Fragment, LeafLowering, Scope, Slots};
use relon_ir::ir::{IrType, Op, SimpleOp};
use relon_ir::records::{
    alloc_record_op, lower_bare_variant, lower_value_as_type, store_field_at_record_op, RecordEnv,
};
use relon_ir::stdlib::StdlibTable;
use relon_ir::types::{EnumVariant, Schema, TypeRepr};

const R: TokenRange = TokenRange { start: 0, end: 0 };

fn node(expr: Expr) -> Node {
    Node {
        expr: Box::new(expr),
        range: R,
        directives: Vec::new(),
        decorators: Vec::new(),
        type_hint: None,
    }
}

fn key(name: &str) -> TokenKey {
    TokenKey::String(name.to_string(), R, false)
}

fn ctor(name: &str, values: Vec<Node>) -> Node {
    node(Expr::FnCall {
        path: vec![key(name)],
        args: values.into_iter().map(|value| CallArg { name: None, value }).collect(),
    })
}

fn option(inner: TypeRepr) -> TypeRepr {
    TypeRepr::Option { inner: Box::new(inner) }
}

fn typed(expected: &TypeRepr, value: &Node, scratch: bool) -> Result<Fragment, LoweringError> {
    let table = StdlibTable { entries: Vec::new() };
    let env = RecordEnv { low: &LeafLowering, table: &table, in_scratch: scratch };
    lower_value_as_type(&env, expected, value, &Scope::Empty, &Slots::new())
}

fn ops(f: &Fragment) -> Vec<&Op> {
    f.ops.iter().map(|t| &t.op).collect()
}

#[test]
fn a_variant_without_payload_is_its_tag() {
    let f = typed(&option(TypeRepr::Int), &node(Expr::Variable(vec![key("None")])), false).unwrap();
    assert_eq!(
        ops(&f),
        vec![&Op::Simple(SimpleOp::BuildVariantRecord {
            tag: 0,
            record_size: 1,
            record_align: 8,
            payload_offset: None,
            payload_ty: None,
        })]
    );
    assert_eq!(f.ty, Some(IrType::I32));
}

#[test]
fn a_variant_with_payload_holds_it_behind_the_tag() {
    let f = typed(&option(TypeRepr::Int), &ctor("Some", vec![node(Expr::Int(7))]), false).unwrap();
    assert_eq!(
        ops(&f),
        vec![
            &Op::Simple(SimpleOp::ConstI64(7)),
            &Op::Simple(SimpleOp::BuildVariantRecord {
                tag: 1,
                record_size: 16,
                record_align: 8,
                payload_offset: Some(8),
                payload_ty: Some(IrType::I64),
            }),
        ]
    );
}

#[test]
fn scratch_records_are_built_in_scratch() {
    let f = typed(&option(TypeRepr::Bool), &ctor("Some", vec![node(Expr::Bool(true))]), true)
        .unwrap();
    assert_eq!(
        f.ops[1].op,
        Op::Simple(SimpleOp::BuildVariantRecordScratch {
            tag: 1,
            record_size: 2,
            record_align: 4,
            payload_offset: Some(1),
            payload_ty: Some(IrType::Bool),
        })
    );
}

#[test]
fn a_list_of_variants_is_a_list_of_pointers() {
    let ty = TypeRepr::List { element: Box::new(option(TypeRepr::Int)) };
    let items = node(Expr::List(vec![
        ctor("Some", vec![node(Expr::Int(1))]),
        node(Expr::Variable(vec![key("None")])),
    ]));
    let f = typed(&ty, &items, false).unwrap();
    assert_eq!(f.ops.last().unwrap().op, Op::Simple(SimpleOp::BuildPointerList { len: 2 }));
    assert_eq!(f.ty, Some(IrType::ListList));
}

#[test]
fn a_payload_of_another_type_is_rejected() {
    match typed(&option(TypeRepr::Int), &ctor("Some", vec![node(Expr::Bool(true))]), false) {
        Err(LoweringError::UnsupportedExpr { kind, .. }) => {
            assert!(kind.contains("Some"), "{}", kind);
            assert!(kind.ends_with("payload produced Bool, expected I64"), "{}", kind);
        }
        other => panic!("expected an error, got {:?}", other),
    }
}

#[test]
fn a_payload_must_be_given() {
    assert!(lower_bare_variant(&option(TypeRepr::Int), "Some", false, R, &Slots::new()).is_err());
    assert_eq!(
        typed(&option(TypeRepr::Int), &ctor("Some", vec![]), false),
        Err(LoweringError::UnsupportedExpr {
            kind: "Some(...) expects exactly one positional payload".to_string(),
            range: R,
        })
    );
}

#[test]
fn the_tags_of_an_enum_are_its_own() {
    let ty = TypeRepr::Enum {
        name: "Level".to_string(),
        variants: vec![
            EnumVariant { name: "Low".to_string(), tag: 5, payload: None },
            EnumVariant { name: "High".to_string(), tag: 9, payload: None },
        ],
    };
    for (name, expected) in [("Low", 5), ("High", 9)] {
        let f = lower_bare_variant(&ty, name, false, R, &Slots::new()).unwrap();
        match f.ops[0].op {
            Op::Simple(SimpleOp::BuildVariantRecord { tag, .. }) => assert_eq!(tag, expected),
            ref other => panic!("expected a variant, got {:?}", other),
        }
    }
}

#[test]
fn plain_values_are_lowered_as_they_are() {
    let f = typed(&TypeRepr::Int, &node(Expr::Int(3)), false).unwrap();
    assert_eq!(ops(&f), vec![&Op::Simple(SimpleOp::ConstI64(3))]);
}

#[test]
fn a_record_without_a_layout_is_rejected() {
    let schema = Schema { name: "P".to_string(), fields: Vec::new(), is_tuple: false };
    let ty = TypeRepr::Schema { schema: Box::new(schema) };
    assert!(typed(&ty, &node(Expr::Dict(Vec::new())), false).is_err());
}

#[test]
fn records_are_allocated_where_they_belong() {
    assert_eq!(
        alloc_record_op(false, 2, 24, 8),
        SimpleOp::AllocSubRecord { record_local_idx: 2, root_size: 24, root_align: 8 }
    );
    assert_eq!(
        alloc_record_op(true, 2, 24, 8),
        SimpleOp::AllocScratchRecord { record_local_idx: 2, root_size: 24, root_align: 8 }
    );
    assert_eq!(
        store_field_at_record_op(false, 1, 16, IrType::I64),
        SimpleOp::StoreFieldAtRecord { record_local_idx: 1, offset: 16, ty: IrType::I64 }
    );
    assert_eq!(
        store_field_at_record_op(true, 1, 16, IrType::I64),
        SimpleOp::StoreFieldAtRecordAbsolute { record_local_idx: 1, offset: 16, ty: IrType::I64 }
    );
}

use relon_ir::arms::{
    enum_like_name, enum_like_tags, enum_like_type, enum_pattern_variant, is_definite_scalar,
    static_arm_decision, StaticArmDecision,
};
use relon_ir::ast::{Expr, Node, PatternBinding, TokenKey, TokenRange, TypeNode};
use relon_ir::canonical::SchemaTable;
use relon_ir::error::LoweringError;
use relon_ir::fragment::{Fragment, LeafLowering, LetBinding, Scope, Slots};
use relon_ir::ir::{IrType, Op, SimpleOp, TaggedOp, TrapKind};
use relon_ir::matching::{enum_tag_test_ops, lower_match};
use relon_ir::reference::{Frame, MethodParam};
use relon_ir::shape::LocalBinding;
use relon_ir::types::{EnumVariant, TypeRepr};

const R: TokenRange = TokenRange { start: 0, end: 0 };

fn node(expr: Expr) -> Node {
    Node {
        expr: Box::new(expr),
        range: R,
        directives: Vec::new(),
        decorators: Vec::new(),
        type_hint: None,
    }
}

fn var(name: &str) -> Node {
    node(Expr::Variable(vec![TokenKey::String(name.to_string(), R, false)]))
}

fn type_pattern(name: &str) -> Expr {
    Expr::Type(TypeNode {
        path: vec![name.to_string()],
        generics: Vec::new(),
        is_optional: false,
        variant_fields: None,
        range: R,
    })
}

fn variant_pattern(enum_name: &str, variant: &str, names: Vec<Option<&str>>) -> Node {
    node(Expr::VariantPattern {
        enum_path: vec![enum_name.to_string()],
        variant: variant.to_string(),
        bindings: names
            .into_iter()
            .map(|n| PatternBinding { field: None, binding: n.map(|s| s.to_string()) })
            .collect(),
    })
}

fn option() -> TypeRepr {
    TypeRepr::Option { inner: Box::new(TypeRepr::Int) }
}

fn color() -> TypeRepr {
    let unit = |name: &str, tag: u8| EnumVariant { name: name.to_string(), tag, payload: None };
    TypeRepr::Enum {
        name: "Color".to_string(),
        variants: vec![unit("Red", 0), unit("Green", 1), unit("Blue", 2)],
    }
}

fn lowered(ty: &TypeRepr, arms: Vec<(Node, Node)>) -> Result<Fragment, LoweringError> {
    let params: Vec<LocalBinding<'_>> = Vec::new();
    let method_params: Vec<MethodParam> = Vec::new();
    let types = SchemaTable { entries: Vec::new() };
    let frame = Frame {
        params: &params,
        self_binding: None,
        method_params: &method_params,
        types: &types,
    };
    let binding = LetBinding {
        name: "v".to_string(),
        idx: 4,
        ty: IrType::I32,
        schema_brand: None,
        type_repr: Some(ty),
        closure: None,
        constant: None,
    };
    let outer = Scope::Empty;
    let scope = Scope::Bind(binding, &outer);
    let builtins = vec!["Int".to_string(), "Bool".to_string(), "String".to_string()];
    let mut at = Slots::new();
    at.lets = 5;
    lower_match(&var("v"), &arms, &builtins, R, &frame, &scope, &at, &LeafLowering)
}

fn static_match(scrutinee: Node, arms: Vec<(Node, Node)>) -> Result<Fragment, LoweringError> {
    let params: Vec<LocalBinding<'_>> = Vec::new();
    let method_params: Vec<MethodParam> = Vec::new();
    let types = SchemaTable { entries: Vec::new() };
    let frame = Frame {
        params: &params,
        self_binding: None,
        method_params: &method_params,
        types: &types,
    };
    let builtins = vec!["Int".to_string(), "Bool".to_string(), "String".to_string()];
    lower_match(
        &scrutinee,
        &arms,
        &builtins,
        R,
        &frame,
        &Scope::Empty,
        &Slots::new(),
        &LeafLowering,
    )
}

/// The bodies that the chain of tests runs for each tag.
fn reached(ops: &[TaggedOp], tag: u8) -> &[TaggedOp] {
    match &ops.last().unwrap().op {
        Op::If { then_body, else_body, .. } => {
            let tested = ops[..ops.len() - 1]
                .iter()
                .filter_map(|t| match &t.op {
                    Op::Simple(SimpleOp::ConstI32(v)) => Some(*v),
                    _ => None,
                })
                .last()
                .expect("a tag is tested");
            if tested == tag as i32 {
                then_body
            } else {
                reached(else_body, tag)
            }
        }
        _ => ops,
    }
}

fn constant(ops: &[TaggedOp]) -> i64 {
    match ops.last().unwrap().op {
        Op::Simple(SimpleOp::ConstI64(v)) => v,
        ref other => panic!("expected a constant, got {:?}", other),
    }
}

#[test]
fn every_tag_reaches_its_arm() {
    let arm = |name: &str, v: i64| (variant_pattern("Color", name, vec![]), node(Expr::Int(v)));
    let f = lowered(&color(), vec![arm("Blue", 30), arm("Red", 10), arm("Green", 20)]).unwrap();
    assert_eq!(f.ty, Some(IrType::I64));
    assert_eq!(constant(reached(&f.ops, 0)), 10);
    assert_eq!(constant(reached(&f.ops, 1)), 20);
    assert_eq!(constant(reached(&f.ops, 2)), 30);
}

#[test]
fn a_wildcard_takes_the_rest() {
    let arms = vec![
        (variant_pattern("Color", "Green", vec![]), node(Expr::Int(1))),
        (node(Expr::Wildcard), node(Expr::Int(2))),
    ];
    let f = lowered(&color(), arms).unwrap();
    assert_eq!(constant(reached(&f.ops, 1)), 1);
    assert_eq!(constant(reached(&f.ops, 0)), 2);
    assert_eq!(constant(reached(&f.ops, 2)), 2);
}

#[test]
fn what_no_pattern_names_traps() {
    let arms = vec![
        (variant_pattern("Color", "Green", vec![]), node(Expr::Int(1))),
        (variant_pattern("Color", "Red", vec![]), node(Expr::Int(2))),
    ];
    let f = lowered(&color(), arms).unwrap();
    let rest = reached(&f.ops, 2);
    assert_eq!(rest[0].op, Op::Simple(SimpleOp::Trap { kind: TrapKind::NoMatch }));
    assert_eq!(rest[1].op, Op::Simple(SimpleOp::ConstI64(0)));
}

#[test]
fn the_trap_for_a_string_interns_the_empty_text() {
    let arms = vec![(
        variant_pattern("Color", "Green", vec![]),
        node(Expr::String("green".to_string())),
    )];
    let f = lowered(&color(), arms).unwrap();
    assert_eq!(f.slots.strings.strings, vec!["green", ""]);
    assert_eq!(
        reached(&f.ops, 0)[1].op,
        Op::ConstString { idx: 1, value: String::new() }
    );
}

#[test]
fn a_payload_is_bound_inside_its_arm() {
    let arms = vec![
        (variant_pattern("Option", "Some", vec![Some("x")]), var("x")),
        (variant_pattern("Option", "None", vec![]), node(Expr::Int(0))),
    ];
    let f = lowered(&option(), arms).unwrap();
    let some = reached(&f.ops, 1);
    assert!(some
        .iter()
        .any(|t| t.op == Op::Simple(SimpleOp::LoadI64AtAbsolute { offset: 8 })));
    assert!(matches!(some.last().unwrap().op, Op::Simple(SimpleOp::LetGet { .. })));
    assert_eq!(constant(reached(&f.ops, 0)), 0);
}

#[test]
fn a_name_is_bound_once() {
    let arms = vec![
        (variant_pattern("Option", "Some", vec![Some("x"), Some("x")]), var("x")),
        (node(Expr::Wildcard), node(Expr::Int(0))),
    ];
    assert_eq!(
        lowered(&option(), arms),
        Err(LoweringError::UnsupportedExpr {
            kind: "duplicate enum pattern binding `x`".to_string(),
            range: R,
        })
    );
}

#[test]
fn arms_of_different_types_are_rejected() {
    let arms = vec![
        (variant_pattern("Color", "Green", vec![]), node(Expr::Int(1))),
        (node(Expr::Wildcard), node(Expr::Bool(true))),
    ];
    assert_eq!(
        lowered(&color(), arms),
        Err(LoweringError::IfBranchTypeMismatch {
            then_ty: IrType::I64,
            else_ty: IrType::Bool,
            range: R,
        })
    );
}

#[test]
fn a_foreign_variant_is_rejected() {
    let arms = vec![(variant_pattern("Color", "Pink", vec![]), node(Expr::Int(1)))];
    assert!(matches!(lowered(&color(), arms), Err(LoweringError::UnsupportedExpr { .. })));
    assert_eq!(
        lowered(&color(), vec![]),
        Err(LoweringError::UnsupportedExpr {
            kind: "Match(enum with no arms)".to_string(),
            range: R,
        })
    );
}

#[test]
fn a_static_type_selects_one_arm() {
    let arms = vec![
        (node(type_pattern("Bool")), node(Expr::Int(1))),
        (node(type_pattern("Int")), node(Expr::Int(2))),
        (node(Expr::Wildcard), node(Expr::Int(3))),
    ];
    let f = static_match(node(Expr::Int(9)), arms).unwrap();
    let ops: Vec<&Op> = f.ops.iter().map(|t| &t.op).collect();
    assert_eq!(
        ops,
        vec![
            &Op::Simple(SimpleOp::ConstI64(9)),
            &Op::Simple(SimpleOp::LetSet { idx: 0, ty: IrType::I64 }),
            &Op::Simple(SimpleOp::ConstI64(2)),
        ]
    );
}

#[test]
fn a_static_match_without_an_arm_is_refused() {
    let refused = || {
        Err(LoweringError::UnsupportedExpr {
            kind: "Match(no arm matches scrutinee type I64 brand None)".to_string(),
            range: R,
        })
    };
    let arms = vec![(node(type_pattern("Bool")), node(Expr::Int(1)))];
    assert_eq!(static_match(node(Expr::Int(9)), arms), refused());
    assert_eq!(static_match(node(Expr::Int(9)), vec![]), refused());
}

#[test]
fn only_four_types_are_definite_scalars() {
    for ty in [IrType::I64, IrType::F64, IrType::Bool, IrType::String] {
        assert!(is_definite_scalar(ty));
    }
    for ty in [IrType::Unit, IrType::I32, IrType::ListInt, IrType::Dict, IrType::Closure] {
        assert!(!is_definite_scalar(ty));
    }
    let decide = static_arm_decision(IrType::Unit, None, &type_pattern("User"), &Vec::new());
    assert_eq!(decide, StaticArmDecision::Undecidable);
}

#[test]
fn patterns_are_decided_by_the_static_type() {
    let builtins = vec!["Int".to_string(), "Float".to_string(), "List".to_string()];
    let decide = |ty: IrType, brand: Option<&String>, pattern: &Expr| {
        static_arm_decision(ty, brand, pattern, &builtins)
    };
    let user = "User".to_string();
    assert_eq!(decide(IrType::I64, None, &type_pattern("Int")), StaticArmDecision::Matches);
    assert_eq!(decide(IrType::I64, None, &type_pattern("Float")), StaticArmDecision::Never);
    assert_eq!(decide(IrType::I64, None, &type_pattern("User")), StaticArmDecision::Never);
    assert_eq!(
        decide(IrType::ListInt, None, &type_pattern("List")),
        StaticArmDecision::Undecidable
    );
    assert_eq!(
        decide(IrType::I32, Some(&user), &type_pattern("User")),
        StaticArmDecision::Matches
    );
    assert_eq!(
        decide(IrType::I32, Some(&user), &type_pattern("Other")),
        StaticArmDecision::Never
    );
    assert_eq!(decide(IrType::I32, None, &Expr::Wildcard), StaticArmDecision::Matches);
}

#[test]
fn types_with_variants_have_names_and_tags() {
    assert!(enum_like_type(&option()));
    assert!(!enum_like_type(&TypeRepr::Int));
    assert_eq!(enum_like_name(&color()), Some("Color"));
    assert_eq!(enum_like_name(&option()), Some("Option"));
    assert_eq!(enum_like_tags(&color()), Some(vec![0, 1, 2]));
    assert_eq!(enum_like_tags(&option()), Some(vec![0, 1]));
    assert_eq!(enum_like_tags(&TypeRepr::Int), None);
    let pattern = variant_pattern("Color", "Blue", vec![]);
    let ty = color();
    assert_eq!(enum_pattern_variant(&ty, &pattern.expr).unwrap().0.tag, 2);
}

#[test]
fn a_tag_is_tested_in_place() {
    let ops: Vec<Op> = enum_tag_test_ops(7, 3, R).into_iter().map(|t| t.op).collect();
    assert_eq!(
        ops,
        vec![
            Op::Simple(SimpleOp::LetGet { idx: 7, ty: IrType::I32 }),
            Op::Simple(SimpleOp::LoadI8UAtAbsolute { offset: 0 }),
            Op::Simple(SimpleOp::ConstI32(3)),
            Op::Simple(SimpleOp::Eq(IrType::I32)),
        ]
    );
}

#[test]
fn a_brand_is_shown_in_quotes() {
    let params: Vec<LocalBinding<'_>> = Vec::new();
    let method_params: Vec<MethodParam> = Vec::new();
    let types = SchemaTable { entries: Vec::new() };
    let frame = Frame {
        params: &params,
        self_binding: None,
        method_params: &method_params,
        types: &types,
    };
    let binding = LetBinding {
        name: "v".to_string(),
        idx: 0,
        ty: IrType::I32,
        schema_brand: Some("a\"b".to_string()),
        type_repr: None,
        closure: None,
        constant: None,
    };
    let scope = Scope::Bind(binding, &Scope::Empty);
    let arms = vec![(node(type_pattern("Other")), node(Expr::Int(1)))];
    let r = lower_match(&var("v"), &arms, &Vec::new(), R, &frame, &scope, &Slots::new(), &LeafLowering);
    assert_eq!(
        r,
        Err(LoweringError::UnsupportedExpr {
            kind: "Match(no arm matches scrutinee type I32 brand Some(\"a\\\"b\"))".to_string(),
            range: R,
        })
    );
}

use relon_ir::ast::{
    CallArg, ClosureParam, Decorator, Directive, Expr, Node, Operator, RefBase, TokenKey,
    TokenRange, TypeNode,
};
use relon_ir::canonical::{MainParam, MainSignature, SchemaTable};
use relon_ir::components::anon_dict_ref_components;
use relon_ir::decorators::{desugar_anon_dict_decorators, desugar_field_decorators};
use relon_ir::dict_plan::{anon_dict_return_plan, AnnotatedClosures, AnonDictField};
use relon_ir::emit_order::anon_dict_emit_order;
use relon_ir::error::LoweringError;
use relon_ir::field_refs::{collect_anon_dict_ref_edges, expr_reads_main_param};
use relon_ir::field_types::{
    classify_anon_dict_list_field, classify_anon_dict_scalar_field, FieldScope,
};
use relon_ir::names::NameTable;
use relon_ir::ref_cycle::find_ref_cycle;
use relon_ir::schedule::drain;
use relon_ir::types::TypeRepr;
use relon_ir::workspace::SchemaDef;

const R: TokenRange = TokenRange { start: 0, end: 0 };

fn node(expr: Expr) -> Node {
    Node {
        expr: Box::new(expr),
        range: R,
        directives: Vec::new(),
        decorators: Vec::new(),
        type_hint: None,
    }
}

fn key(name: &str) -> TokenKey {
    TokenKey::String(name.to_string(), R, false)
}

fn num(v: i64) -> Node {
    node(Expr::Int(v))
}

fn var(name: &str) -> Node {
    node(Expr::Variable(vec![key(name)]))
}

fn sibling(name: &str) -> Node {
    node(Expr::Reference { base: RefBase::Sibling, path: vec![key(name)] })
}

fn pairs(fields: Vec<(&str, Node)>) -> Vec<(TokenKey, Node)> {
    fields.into_iter().map(|(k, v)| (key(k), v)).collect()
}

fn internal(mut n: Node) -> Node {
    n.directives.push(Directive { name: "internal".to_string(), range: R });
    n
}

fn type_node(name: &str) -> TypeNode {
    TypeNode {
        path: vec![name.to_string()],
        generics: Vec::new(),
        is_optional: false,
        variant_fields: None,
        range: R,
    }
}

fn order(fields: Vec<(&str, Node)>) -> Result<Vec<usize>, LoweringError> {
    anon_dict_emit_order(&pairs(fields), &Vec::new(), R)
}

#[test]
fn fields_without_references_keep_their_order() {
    assert_eq!(order(vec![("a", num(1)), ("b", num(2)), ("c", num(3))]), Ok(vec![0, 1, 2]));
}

#[test]
fn backward_references_keep_the_order() {
    assert_eq!(
        order(vec![("a", num(1)), ("b", sibling("a")), ("c", sibling("b"))]),
        Ok(vec![0, 1, 2])
    );
}

#[test]
fn a_forward_reference_moves_its_target_ahead() {
    assert_eq!(
        order(vec![("a", sibling("b")), ("b", num(1)), ("c", num(2))]),
        Ok(vec![1, 0, 2])
    );
}

#[test]
fn a_chain_of_forward_references_is_unwound() {
    assert_eq!(
        order(vec![("a", sibling("b")), ("b", sibling("c")), ("c", num(2))]),
        Ok(vec![2, 1, 0])
    );
}

#[test]
fn the_first_field_that_is_ready_comes_next() {
    assert_eq!(
        order(vec![("a", sibling("d")), ("b", num(1)), ("c", sibling("b")), ("d", num(2))]),
        Ok(vec![1, 2, 3, 0])
    );
    assert_eq!(
        order(vec![("a", sibling("c")), ("b", sibling("a")), ("c", num(1)), ("d", num(2))]),
        Ok(vec![2, 0, 1, 3])
    );
}

#[test]
fn a_cycle_is_reported_by_its_names() {
    match order(vec![("a", sibling("b")), ("b", sibling("a")), ("c", num(1))]) {
        Err(LoweringError::CyclicFieldDependency { schema, cycle, .. }) => {
            assert_eq!(schema, "Ret");
            assert!(cycle.contains(&"a".to_string()));
            assert!(cycle.contains(&"b".to_string()));
            assert!(!cycle.contains(&"c".to_string()));
        }
        other => panic!("expected a cycle, got {:?}", other),
    }
}

#[test]
fn a_field_that_refers_to_itself_is_a_cycle() {
    assert!(matches!(
        order(vec![("a", sibling("a"))]),
        Err(LoweringError::CyclicFieldDependency { .. })
    ));
}

#[test]
fn a_cycle_through_a_parameter_is_a_cycle() {
    let plus = |l: Node, r: Node| node(Expr::Binary(Operator::Add, l, r));
    let fields = vec![("a", sibling("b")), ("b", plus(sibling("a"), var("p")))];
    let params = vec!["p".to_string()];
    match anon_dict_emit_order(&pairs(fields), &params, R) {
        Err(LoweringError::CyclicFieldDependency { schema, cycle, .. }) => {
            assert_eq!(schema, "Ret");
            assert!(cycle.contains(&"a".to_string()));
        }
        other => panic!("expected a cycle, got {:?}", other),
    }
    // Without the cycle the forward reference is what is refused.
    let fields =
        vec![("a", sibling("b")), ("b", plus(sibling("c"), var("p"))), ("c", num(1))];
    assert!(matches!(
        anon_dict_emit_order(&pairs(fields), &params, R),
        Err(LoweringError::UnsupportedExpr { .. })
    ));
}

#[test]
fn only_arithmetic_is_classified() {
    let scope = FieldScope {
        params: NameTable::new(),
        closures: NameTable::new(),
        dicts: Vec::new(),
        fields: NameTable::new(),
    };
    let text = |t: &str| node(Expr::String(t.to_string()));
    let half = || node(Expr::Float(0.5f64.to_bits()));
    let truth = || node(Expr::Bool(true));
    let classify = |op: Operator, l: Node, r: Node| {
        classify_anon_dict_scalar_field(&Expr::Binary(op, l, r), R, &scope, "f")
    };
    for op in [Operator::Add, Operator::Sub, Operator::Mul, Operator::Div, Operator::Mod] {
        assert_eq!(classify(op, num(1), num(2)), Ok(TypeRepr::Int));
        assert_eq!(classify(op, num(1), half()), Ok(TypeRepr::Float));
        assert!(classify(op, num(1), text("a")).is_err());
        assert!(classify(op, truth(), truth()).is_err());
        assert_eq!(classify(op, text("a"), text("b")).is_ok(), op == Operator::Add);
    }
    for op in [Operator::Lt, Operator::Eq, Operator::Ge, Operator::And, Operator::Or] {
        assert_eq!(
            classify(op, num(1), num(2)),
            Err(LoweringError::UnsupportedExpr {
                kind: "AnonDictReturn(field `f`: unsupported value shape `Binary`)".to_string(),
                range: R,
            })
        );
    }
}

#[test]
fn references_are_found_inside_expressions() {
    let names = vec!["a".to_string(), "b".to_string(), "c".to_string()];
    let mut out = Vec::new();
    let inner = node(Expr::List(vec![sibling("c"), num(1), sibling("a")]));
    collect_anon_dict_ref_edges(&inner.expr, &names, &mut out);
    out.sort();
    assert_eq!(out, vec!["a".to_string(), "c".to_string()]);
}

#[test]
fn reads_of_parameters_are_found_inside_expressions() {
    let params = vec!["x".to_string()];
    assert!(expr_reads_main_param(&node(Expr::List(vec![num(1), var("x")])).expr, &params));
    assert!(!expr_reads_main_param(&node(Expr::List(vec![num(1), var("y")])).expr, &params));
}

#[test]
fn components_are_named_by_their_least_field() {
    // 0 - 2 - 4 and 1 - 3 are linked; 5 stands alone.
    let refs = vec![vec![2], vec![], vec![4], vec![1], vec![], vec![]];
    let c = anon_dict_ref_components(6, &refs);
    assert_eq!(c[0], c[2]);
    assert_eq!(c[2], c[4]);
    assert_eq!(c[1], c[3]);
    assert_ne!(c[0], c[1]);
    assert_ne!(c[0], c[5]);
    assert_ne!(c[1], c[5]);
}

#[test]
fn draining_stops_at_a_cycle() {
    let refs = vec![vec![1], vec![0], vec![]];
    let drained = drain(&refs);
    assert_eq!(drained.order, vec![2]);
    let cycle = find_ref_cycle(&drained.outgoing, &drained.incoming).expect("a cycle");
    assert!(cycle.contains(&0) && cycle.contains(&1));
    let open = drain(&vec![vec![], vec![0]]);
    assert_eq!(open.order, vec![0, 1]);
    assert!(find_ref_cycle(&open.outgoing, &open.incoming).is_none());
}

#[test]
fn a_decorator_becomes_a_call() {
    let mut n = num(5);
    n.decorators.push(Decorator {
        path: vec![key("clamp")],
        args: vec![CallArg { name: None, value: num(9) }],
        range: R,
    });
    let out = desugar_field_decorators(n).unwrap();
    assert!(out.decorators.is_empty());
    match *out.expr {
        Expr::FnCall { path, args } => {
            assert_eq!(path, vec![key("clamp")]);
            assert_eq!(args.len(), 2);
            assert!(args.iter().any(|a| *a.value.expr == Expr::Int(5)));
            assert!(args.iter().any(|a| *a.value.expr == Expr::Int(9)));
        }
        other => panic!("expected a call, got {:?}", other),
    }
}

#[test]
fn a_body_without_decorators_is_left_alone() {
    let body = || node(Expr::Dict(pairs(vec![("a", num(1)), ("b", num(2))])));
    let out = desugar_anon_dict_decorators(body()).unwrap();
    assert!(!out.changed);
    assert_eq!(out.root, body());
}

#[test]
fn a_decorator_with_a_named_argument_is_rejected() {
    let mut n = num(5);
    n.decorators.push(Decorator {
        path: vec![key("clamp")],
        args: vec![CallArg { name: Some("max".to_string()), value: num(9) }],
        range: R,
    });
    assert_eq!(
        desugar_field_decorators(n),
        Err(LoweringError::UnsupportedExpr {
            kind: "field decorator `@clamp` with a named argument".to_string(),
            range: R,
        })
    );
}

#[test]
fn a_decorator_with_a_dotted_path_is_rejected() {
    let mut n = num(5);
    n.decorators.push(Decorator { path: vec![key("a"), key("b")], args: Vec::new(), range: R });
    assert_eq!(
        desugar_field_decorators(n),
        Err(LoweringError::UnsupportedExpr {
            kind: "field decorator with multi-segment / dynamic path".to_string(),
            range: R,
        })
    );
}

fn signature() -> MainSignature {
    MainSignature {
        params: vec![MainParam { name: "x".to_string(), type_node: type_node("Int") }],
        return_type: Some(type_node("Dict")),
        range: R,
    }
}

fn plan(fields: Vec<(&str, Node)>) -> Result<relon_ir::dict_plan::AnonDictPlan, LoweringError> {
    let types = SchemaTable { entries: Vec::new() };
    let root = node(Expr::Dict(pairs(fields)));
    anon_dict_return_plan(&signature(), &root, &types, &AnnotatedClosures)
        .map(|p| p.expect("a dictionary is planned"))
}

#[test]
fn visible_fields_make_the_record() {
    let helper = node(Expr::Closure {
        params: vec![ClosureParam { name: "n".to_string(), type_hint: Some(type_node("Int")) }],
        return_type: Some(type_node("Int")),
        body: var("n"),
    });
    let p = plan(vec![
        ("f", internal(helper)),
        ("a", num(1)),
        ("b", node(Expr::Bool(true))),
        ("c", var("x")),
    ])
    .unwrap();
    let visible: Vec<(&str, &TypeRepr)> =
        p.schema.fields.iter().map(|f| (f.name.as_str(), &f.ty)).collect();
    assert_eq!(
        visible,
        vec![("a", &TypeRepr::Int), ("b", &TypeRepr::Bool), ("c", &TypeRepr::Int)]
    );
    assert_eq!(p.schema.name, "Ret");
    assert!(matches!(p.fields[0], AnonDictField::Closure { .. }));
    assert_eq!(p.fields.len(), 4);
    assert_eq!(p.emit_order.len(), 4);
}

#[test]
fn every_field_is_emitted_once() {
    let p = plan(vec![("a", sibling("b")), ("b", num(1)), ("c", num(2))]).unwrap();
    let mut seen = p.emit_order.clone();
    seen.sort();
    assert_eq!(seen, vec![0, 1, 2]);
}

#[test]
fn a_visible_closure_may_not_cross_the_boundary() {
    let helper = node(Expr::Closure { params: Vec::new(), return_type: None, body: num(1) });
    assert!(matches!(
        plan(vec![("f", helper)]),
        Err(LoweringError::ClosureAcrossBoundary { .. })
    ));
}

#[test]
fn a_field_of_no_known_type_is_rejected() {
    assert!(matches!(
        plan(vec![("a", node(Expr::Wildcard))]),
        Err(LoweringError::UnsupportedFieldType { .. }) | Err(LoweringError::UnsupportedExpr { .. })
    ));
}

#[test]
fn an_enum_without_a_form_is_refused_where_it_is_used() {
    let def = SchemaDef {
        name: Some("Color".to_string()),
        variants: vec!["Red".to_string(), "Blue".to_string()],
        local: None,
        shape: Err(LoweringError::UnsupportedFieldType {
            schema: "Color".to_string(),
            field: "Red".to_string(),
            ty: "T".to_string(),
            range: R,
        }),
        instances: Vec::new(),
    };
    let types = SchemaTable { entries: vec![("Color".to_string(), &def)] };
    let place = TokenRange { start: 3, end: 9 };
    let variant = |name: &str| {
        node(Expr::VariantCtor {
            enum_path: vec!["Color".to_string()],
            variant: name.to_string(),
            body: node(Expr::Dict(Vec::new())),
        })
    };
    let classify = |items: Vec<Node>| {
        classify_anon_dict_list_field(&items, place, "f", &types, &NameTable::new())
    };
    assert_eq!(
        classify(vec![variant("Red"), variant("Blue")]),
        Err(LoweringError::UnsupportedFieldType {
            schema: "Color".to_string(),
            field: "Red".to_string(),
            ty: "T".to_string(),
            range: place,
        })
    );
    assert!(matches!(
        classify(vec![variant("Green")]),
        Err(LoweringError::UnsupportedFieldType { range: R, .. })
    ));
}

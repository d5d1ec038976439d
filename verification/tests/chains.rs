use relon_ir::ast::{CallArg, ClosureParam, Expr, Node, TokenKey, TokenRange};
use relon_ir::chain::{match_bare_range, match_range_chain, StageMethod};
use relon_ir::fragment::{LeafLowering, Scope, Slots};
use relon_ir::ir::{IrType, Op, SimpleOp, TaggedOp};
use relon_ir::range_calls::{
    try_lower_len_filter_range, try_lower_list_sum_range, try_lower_range_chain_len,
    try_lower_range_chain_reduce,
};

const R: TokenRange = TokenRange { start: 0, end: 0 };

fn node(expr: Expr) -> Node {
    Node {
        expr: Box::new(expr),
        range: R,
        directives: Vec::new(),
        decorators: Vec::new(),
        type_hint: None,
    }
}

fn key(name: &str) -> TokenKey {
    TokenKey::String(name.to_string(), R, false)
}

fn var(name: &str) -> Node {
    node(Expr::Variable(vec![key(name)]))
}

fn num(v: i64) -> Node {
    node(Expr::Int(v))
}

fn arg(value: Node) -> CallArg {
    CallArg { name: None, value }
}

fn param(name: &str) -> ClosureParam {
    ClosureParam { name: name.to_string(), type_hint: None }
}

fn closure(params: Vec<&str>, body: Node) -> Node {
    node(Expr::Closure {
        params: params.into_iter().map(param).collect(),
        return_type: None,
        body,
    })
}

fn range_call(args: Vec<Node>) -> Node {
    node(Expr::FnCall {
        path: vec![key("range")],
        args: args.into_iter().map(arg).collect(),
    })
}

fn method(receiver: Node, name: &str, args: Vec<Node>) -> Node {
    node(Expr::FnCall {
        path: vec![TokenKey::Dynamic(receiver, false), key(name)],
        args: args.into_iter().map(arg).collect(),
    })
}

fn start() -> Slots {
    Slots::new()
}

fn simple(ops: &[TaggedOp]) -> Vec<SimpleOp> {
    ops.iter()
        .filter_map(|t| match &t.op {
            Op::Simple(s) => Some(*s),
            _ => None,
        })
        .collect()
}

#[test]
fn bare_range_subset_agrees() {
    for (args, has_start) in [(vec![var("n")], false), (vec![num(5), var("n")], true)] {
        let call = range_call(args);
        let chain = match_range_chain(&call.expr).expect("ir match");
        assert!(chain.stages.is_empty(), "bare range has no stages");
        let ir_has_start = chain.range_args.len() == 2;
        let bare = match_bare_range(&call.expr).expect("ast match");
        assert_eq!(bare.len() == 2, has_start, "ast start mismatch");
        assert_eq!(ir_has_start, bare.len() == 2, "ir/ast disagree on start arg");
    }
}

#[test]
fn chain_form_is_ir_only() {
    let call = method(range_call(vec![var("n")]), "map", vec![closure(vec!["i"], var("i"))]);
    let chain = match_range_chain(&call.expr).expect("ir match");
    assert_eq!(chain.stages.len(), 1, "one map stage");
    assert!(
        match_bare_range(&call.expr).is_none(),
        "shared recogniser must not claim chain forms"
    );
}

#[test]
fn stages_come_in_the_order_of_the_calls() {
    let mapped = method(range_call(vec![num(9)]), "map", vec![closure(vec!["i"], var("i"))]);
    let both = method(mapped, "filter", vec![closure(vec!["j"], node(Expr::Bool(true)))]);
    let chain = match_range_chain(&both.expr).expect("chain");
    let methods: Vec<StageMethod> = chain.stages.iter().map(|s| s.method).collect();
    assert_eq!(methods, vec![StageMethod::Transform, StageMethod::Retain]);
}

#[test]
fn three_range_arguments_are_no_range() {
    let call = range_call(vec![num(1), num(2), num(3)]);
    assert!(match_range_chain(&call.expr).is_none());
}

#[test]
fn a_sum_of_a_range_is_one_loop() {
    let path = vec![key("list"), key("sum")];
    let args = vec![arg(range_call(vec![num(4)]))];
    let f = try_lower_list_sum_range(&path, &args, R, &Scope::Empty, &start(), &LeafLowering)
        .unwrap()
        .expect("fused");
    assert_eq!(f.ty, Some(IrType::I64));
    let blocks: Vec<&Vec<TaggedOp>> = f
        .ops
        .iter()
        .filter_map(|t| match &t.op {
            Op::Block { body, .. } => Some(body),
            _ => None,
        })
        .collect();
    assert_eq!(blocks.len(), 1);
    let body = match &blocks[0][0].op {
        Op::Loop { body, .. } => body,
        other => panic!("expected a loop, got {:?}", other),
    };
    let ops = simple(body);
    assert!(ops.contains(&SimpleOp::BrIf { label_depth: 1 }));
    assert_eq!(ops.last(), Some(&SimpleOp::Br { label_depth: 0 }));
    assert!(f.slots.lets > 0);
}

#[test]
fn other_calls_are_left_alone() {
    let path = vec![key("list"), key("sum")];
    let args = vec![arg(var("xs"))];
    let r = try_lower_list_sum_range(&path, &args, R, &Scope::Empty, &start(), &LeafLowering);
    assert_eq!(r, Ok(None));
}

#[test]
fn both_forms_of_a_filtered_length_lower_alike() {
    let keep = || closure(vec!["i"], node(Expr::Bool(true)));
    let chained = method(range_call(vec![num(8)]), "filter", vec![keep()]);
    let free = try_lower_len_filter_range(
        &vec![key("_len")],
        &vec![arg(node(Expr::FnCall {
            path: vec![key("_list_filter")],
            args: vec![arg(range_call(vec![num(8)])), arg(keep())],
        }))],
        R,
        &Scope::Empty,
        &start(),
        &LeafLowering,
    )
    .unwrap()
    .expect("free form");
    let as_method = try_lower_range_chain_len(
        &vec![TokenKey::Dynamic(chained, false), key("len")],
        &Vec::new(),
        R,
        &Scope::Empty,
        &start(),
        &LeafLowering,
    )
    .unwrap()
    .expect("method form");
    assert_eq!(free, as_method);
}

#[test]
fn a_fold_runs_its_body_in_the_loop() {
    let fold = closure(vec!["acc", "i"], var("acc"));
    let f = try_lower_range_chain_reduce(
        &vec![TokenKey::Dynamic(range_call(vec![num(3)]), false), key("reduce")],
        &vec![arg(num(7)), arg(fold)],
        R,
        &Scope::Empty,
        &start(),
        &LeafLowering,
    )
    .unwrap()
    .expect("fused");
    assert_eq!(f.ty, Some(IrType::I64));
    assert!(simple(&f.ops).contains(&SimpleOp::ConstI64(7)));
}

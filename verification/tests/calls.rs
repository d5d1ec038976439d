use relon_ir::ast::{CallArg, Expr, Node, RefBase, TokenKey, TokenRange};
use relon_ir::calls::{check_stdlib_arg, lower_fn_call, try_lower_local_closure_call};
use relon_ir::error::LoweringError;
use relon_ir::fragment::{
    ClosureSig, Fragment, LeafLowering, LetBinding, ScalarConst, Scope, Slots,
};
use relon_ir::ir::{IrType, Op, SimpleOp};
use relon_ir::names::NameTable;
use relon_ir::native_import::{HostFnEntry, NO_CAPABILITY_BIT};
use relon_ir::reference::lower_reference;
use relon_ir::stdlib::{StdlibEntry, StdlibTable};

const R: TokenRange = TokenRange { start: 0, end: 0 };

fn node(expr: Expr) -> Node {
    Node {
        expr: Box::new(expr),
        range: R,
        directives: Vec::new(),
        decorators: Vec::new(),
        type_hint: None,
    }
}

fn key(name: &str) -> TokenKey {
    TokenKey::String(name.to_string(), R, false)
}

fn num(v: i64) -> Node {
    node(Expr::Int(v))
}

fn args(values: Vec<Node>) -> Vec<CallArg> {
    values.into_iter().map(|value| CallArg { name: None, value }).collect()
}

fn binding<'a>(name: &str, idx: u32, ty: IrType) -> LetBinding<'a> {
    LetBinding {
        name: name.to_string(),
        idx,
        ty,
        schema_brand: None,
        type_repr: None,
        closure: None,
        constant: None,
    }
}

fn table() -> StdlibTable {
    StdlibTable {
        entries: vec![
            StdlibEntry {
                name: "abs".to_string(),
                params: vec![IrType::I64],
                ret: IrType::I64,
                closure: None,
            },
            StdlibEntry {
                name: "max".to_string(),
                params: vec![IrType::I64, IrType::I64],
                ret: IrType::I64,
                closure: None,
            },
        ],
    }
}

fn host_fns() -> NameTable<HostFnEntry> {
    let mut t = NameTable::new();
    t.insert(
        "clock".to_string(),
        HostFnEntry { param_tys: vec![], ret_ty: IrType::I64, required_bits: vec![4, 2] },
    );
    t.insert(
        "echo".to_string(),
        HostFnEntry { param_tys: vec![IrType::I64], ret_ty: IrType::I64, required_bits: vec![] },
    );
    t
}

fn call_at(path: &[&str], values: Vec<CallArg>, at: &Slots) -> Result<Fragment, LoweringError> {
    let path: Vec<TokenKey> = path.iter().map(|p| key(p)).collect();
    lower_fn_call(&path, &values, R, &Scope::Empty, at, &LeafLowering, &table(), &host_fns())
}

fn call(path: &[&str], values: Vec<Node>) -> Result<Fragment, LoweringError> {
    call_at(path, args(values), &Slots::new())
}

#[test]
fn a_routine_is_called_by_its_index() {
    let f = call(&["max"], vec![num(1), num(2)]).unwrap();
    assert_eq!(f.ty, Some(IrType::I64));
    assert_eq!(
        f.ops.last().unwrap().op,
        Op::Call {
            fn_index: 1,
            arg_count: 2,
            param_tys: vec![IrType::I64, IrType::I64],
            ret_ty: IrType::I64,
        }
    );
    assert_eq!(f.ops.len(), 3);
}

#[test]
fn an_unknown_routine_is_reported_with_its_arity() {
    assert_eq!(
        call(&["frobnicate"], vec![num(1), num(2)]),
        Err(LoweringError::UnknownStdlibMethod {
            name: "frobnicate".to_string(),
            arity: 2,
            range: R,
        })
    );
    assert_eq!(
        call(&["max"], vec![num(1)]),
        Err(LoweringError::UnknownStdlibMethod { name: "max".to_string(), arity: 1, range: R })
    );
}

#[test]
fn a_call_needs_a_name() {
    assert_eq!(
        call(&[], vec![]),
        Err(LoweringError::UnsupportedExpr { kind: "FnCall(empty-path)".to_string(), range: R })
    );
    let path = vec![key("x"), TokenKey::Dynamic(num(1), false)];
    assert_eq!(
        lower_fn_call(
            &path,
            &Vec::new(),
            R,
            &Scope::Empty,
            &Slots::new(),
            &LeafLowering,
            &table(),
            &host_fns(),
        ),
        Err(LoweringError::UnsupportedExpr {
            kind: "FnCall(non-string-tail-segment)".to_string(),
            range: R,
        })
    );
}

#[test]
fn capabilities_are_checked_before_the_call() {
    let f = call(&["clock"], vec![]).unwrap();
    let ops: Vec<&Op> = f.ops.iter().map(|t| &t.op).collect();
    assert_eq!(
        ops,
        vec![
            &Op::Simple(SimpleOp::CheckCap { cap_bit: 4 }),
            &Op::Simple(SimpleOp::CheckCap { cap_bit: 2 }),
            &Op::CallNative {
                import_idx: 0,
                param_tys: vec![],
                ret_ty: IrType::I64,
                cap_bit: NO_CAPABILITY_BIT,
            },
        ]
    );
    assert_eq!(f.slots.imports.imports[0].name, "clock");
}

#[test]
fn imports_are_numbered_in_order_of_first_use() {
    let first = call(&["echo"], vec![num(1)]).unwrap();
    let second = call_at(&["clock"], vec![], &first.slots).unwrap();
    let third = call_at(&["echo"], args(vec![num(2)]), &second.slots).unwrap();
    let number = |f: &Fragment| match &f.ops.last().unwrap().op {
        Op::CallNative { import_idx, .. } => *import_idx,
        other => panic!("expected a host call, got {:?}", other),
    };
    assert_eq!((number(&first), number(&second), number(&third)), (0, 1, 0));
    let names: Vec<&str> =
        third.slots.imports.imports.iter().map(|i| i.name.as_str()).collect();
    assert_eq!(names, vec!["echo", "clock"]);
}

#[test]
fn a_host_call_checks_its_arguments() {
    assert!(matches!(
        call(&["echo"], vec![node(Expr::Bool(true))]),
        Err(LoweringError::UnsupportedExpr { .. })
    ));
    let named = vec![CallArg { name: Some("x".to_string()), value: num(1) }];
    assert_eq!(
        call_at(&["echo"], named, &Slots::new()),
        Err(LoweringError::UnsupportedExpr {
            kind: "FnCall(named-arg `echo` for native fn)".to_string(),
            range: R,
        })
    );
    assert!(matches!(
        call(&["echo"], vec![num(1), num(2)]),
        Err(LoweringError::UnknownStdlibMethod { .. })
    ));
}

fn closure_call(sig: Option<&ClosureSig>, values: Vec<Node>) -> Result<Option<Fragment>, LoweringError> {
    let mut b = binding("f", 3, IrType::Closure);
    b.closure = sig;
    let outer = Scope::Empty;
    let scope = Scope::Bind(b, &outer);
    try_lower_local_closure_call(
        &vec![key("f")],
        &args(values),
        R,
        &scope,
        &Slots::new(),
        &LeafLowering,
    )
}

#[test]
fn a_local_closure_is_called_through_its_slot() {
    let sig =
        ClosureSig { params: vec![IrType::I64], ret: IrType::Bool, coercible: vec![false] };
    let f = closure_call(Some(&sig), vec![num(5)]).unwrap().expect("a closure call");
    let ops: Vec<&Op> = f.ops.iter().map(|t| &t.op).collect();
    assert_eq!(
        ops,
        vec![
            &Op::Simple(SimpleOp::LetGet { idx: 3, ty: IrType::Closure }),
            &Op::Simple(SimpleOp::ConstI64(5)),
            &Op::CallClosure { param_tys: vec![IrType::I64], ret_ty: IrType::Bool },
        ]
    );
    assert_eq!(f.ty, Some(IrType::Bool));
}

#[test]
fn a_local_closure_checks_its_arguments() {
    let sig =
        ClosureSig { params: vec![IrType::I64], ret: IrType::Bool, coercible: vec![false] };
    assert_eq!(
        closure_call(Some(&sig), vec![]),
        Err(LoweringError::UnknownStdlibMethod { name: "f".to_string(), arity: 0, range: R })
    );
    assert_eq!(
        closure_call(Some(&sig), vec![node(Expr::Float(0))]),
        Err(LoweringError::StdlibArgTypeMismatch {
            name: "f".to_string(),
            arg_idx: 0,
            got: IrType::F64,
            expected: IrType::I64,
            range: R,
        })
    );
    assert!(matches!(
        closure_call(None, vec![num(1)]),
        Err(LoweringError::UnsupportedExpr { .. })
    ));
}

#[test]
fn a_receiver_must_fit_its_slot() {
    let name = "length".to_string();
    let string = vec![IrType::String];
    assert_eq!(check_stdlib_arg(&name, IrType::String, &string, R), Ok(()));
    assert_eq!(
        check_stdlib_arg(&name, IrType::I64, &string, R),
        Err(LoweringError::StdlibArgTypeMismatch {
            name: "length".to_string(),
            arg_idx: 0,
            got: IrType::I64,
            expected: IrType::String,
            range: R,
        })
    );
}

#[test]
fn a_closure_has_no_value_by_itself() {
    let literal = node(Expr::Closure { params: vec![], return_type: None, body: num(1) });
    assert!(call(&["abs"], vec![literal]).is_err());
}

#[test]
fn a_reference_reads_what_is_bound() {
    let outer = Scope::Empty;
    let scope = Scope::Bind(binding("a", 6, IrType::I64), &outer);
    let read = |base: RefBase, path: Vec<TokenKey>| {
        lower_reference(base, &path, R, &scope, &Slots::new())
    };
    let f = read(RefBase::Sibling, vec![key("a")]).unwrap();
    assert_eq!(f.ops[0].op, Op::Simple(SimpleOp::LetGet { idx: 6, ty: IrType::I64 }));
    assert_eq!(f.ty, Some(IrType::I64));
    assert!(read(RefBase::Sibling, vec![key("b")]).is_err());
    assert!(read(RefBase::Sibling, vec![key("a"), key("b")]).is_err());
    assert!(read(RefBase::Uncle, vec![key("a")]).is_err());
}

#[test]
fn a_constant_is_read_as_itself() {
    let mut b = binding("a", 6, IrType::I64);
    b.constant = Some(ScalarConst::I64(40));
    let outer = Scope::Empty;
    let scope = Scope::Bind(b, &outer);
    let f = lower_reference(RefBase::Sibling, &vec![key("a")], R, &scope, &Slots::new()).unwrap();
    assert_eq!(f.ops.len(), 1);
    assert_eq!(f.ops[0].op, Op::Simple(SimpleOp::ConstI64(40)));
}

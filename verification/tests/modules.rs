use relon_ir::ast::{CallArg, Expr, Node, TokenKey, TokenRange, TypeNode};
use relon_ir::canonical::{MainParam, MainSignature};
use relon_ir::counted::Counted;
use relon_ir::error::LoweringError;
use relon_ir::fragment::Slots;
use relon_ir::ir::{IrType, Op, SimpleOp, TaggedOp};
use relon_ir::lowering::{lower_workspace, lower_workspace_single, LeafBackend};
use relon_ir::module::{assemble_module, Func, LambdaTable, LoweredEntry};
use relon_ir::names::NameTable;
use relon_ir::native_import::{HostFnSignature, HostFnTables};
use relon_ir::nested::Deepened;
use relon_ir::records::{FieldSlot, OffsetTable};
use relon_ir::stdlib::StdlibTable;
use relon_ir::types::{Field, Schema, TypeRepr};
use relon_ir::workspace::{
    reachable_modules, schema_hashes_differ, AnalyzedTree, SchemaDecl, SchemaDef, WorkspaceTree,
};

const R: TokenRange = TokenRange { start: 0, end: 0 };

fn node(expr: Expr) -> Node {
    Node {
        expr: Box::new(expr),
        range: R,
        directives: Vec::new(),
        decorators: Vec::new(),
        type_hint: None,
    }
}

fn key(name: &str) -> TokenKey {
    TokenKey::String(name.to_string(), R, false)
}

fn var(name: &str) -> Node {
    node(Expr::Variable(vec![key(name)]))
}

fn call(path: &[&str], values: Vec<Node>) -> Node {
    node(Expr::FnCall {
        path: path.iter().map(|p| key(p)).collect(),
        args: values.into_iter().map(|value| CallArg { name: None, value }).collect(),
    })
}

fn named(head: &str) -> TypeNode {
    TypeNode {
        path: vec![head.to_string()],
        generics: Vec::new(),
        is_optional: false,
        variant_fields: None,
        range: R,
    }
}

fn main_of(params: Vec<(&str, &str)>, returns: &str) -> MainSignature {
    MainSignature {
        params: params
            .into_iter()
            .map(|(n, t)| MainParam { name: n.to_string(), type_node: named(t) })
            .collect(),
        return_type: Some(named(returns)),
        range: R,
    }
}

fn host_fns(signatures: Vec<(&str, HostFnSignature)>) -> HostFnTables {
    let mut table = NameTable::new();
    for (name, sig) in signatures {
        table.insert(name.to_string(), sig);
    }
    HostFnTables { signatures: table, gates: NameTable::new(), pure: Vec::new() }
}

fn tree(main: Option<MainSignature>) -> AnalyzedTree {
    AnalyzedTree {
        root_schemas: Vec::new(),
        schemas: Vec::new(),
        main_signature: main,
        host_fns: host_fns(Vec::new()),
    }
}

fn with_record(mut t: AnalyzedTree, name: &str, field: TypeRepr) -> AnalyzedTree {
    let schema = Schema {
        name: name.to_string(),
        fields: vec![Field { name: "x".to_string(), ty: field }],
        is_tuple: false,
    };
    t.root_schemas.push(SchemaDecl { name: name.to_string(), body: 1 });
    t.schemas.push((
        1,
        SchemaDef {
            name: Some(name.to_string()),
            variants: Vec::new(),
            local: Some(schema),
            shape: Err(LoweringError::MissingMain { module: name.to_string() }),
            instances: Vec::new(),
        },
    ));
    t
}

fn layout(fields: Vec<u32>) -> OffsetTable {
    OffsetTable {
        root_size: 8 * fields.len() as u32,
        root_align: 8,
        fields: fields.into_iter().map(|offset| FieldSlot { offset, inline: true }).collect(),
    }
}

fn leaves(params: Vec<u32>, returned: Vec<u32>) -> LeafBackend {
    let mut layouts = NameTable::new();
    layouts.insert("MainParams".to_string(), layout(params));
    layouts.insert("Ret".to_string(), layout(returned));
    LeafBackend { layouts }
}

fn backend(params: Vec<u32>, returned: Vec<u32>) -> Deepened<Deepened<LeafBackend>> {
    Deepened { inner: Deepened { inner: leaves(params, returned) } }
}

fn single(t: &AnalyzedTree, root: Node, b: &Deepened<Deepened<LeafBackend>>) -> Result<
    LoweredEntry,
    LoweringError,
> {
    let builtins = vec!["Int".to_string(), "Bool".to_string()];
    let table = StdlibTable { entries: Vec::new() };
    lower_workspace_single(t, root, b, &table, &builtins)
}

fn workspace(
    modules: Vec<(&str, AnalyzedTree)>,
    imports: Vec<(&str, Vec<&str>)>,
    entry: &str,
    root: Node,
) -> Result<LoweredEntry, LoweringError> {
    let mut ws = WorkspaceTree { modules: NameTable::new(), import_graph: NameTable::new() };
    let mut bodies = NameTable::new();
    bodies.insert(entry.to_string(), root);
    for (name, t) in modules {
        ws.modules.insert(name.to_string(), t);
    }
    for (name, targets) in imports {
        let targets = targets.into_iter().map(|t| t.to_string()).collect();
        ws.import_graph.insert(name.to_string(), targets);
    }
    let builtins = Vec::new();
    let table = StdlibTable { entries: Vec::new() };
    lower_workspace(&ws, bodies, entry, &backend(vec![16], vec![0]), &table, &builtins)
}

fn simple(ops: &[TaggedOp]) -> Vec<SimpleOp> {
    ops.iter()
        .map(|t| match &t.op {
            Op::Simple(s) => *s,
            other => panic!("expected a simple instruction, got {:?}", other),
        })
        .collect()
}

#[test]
fn a_parameter_is_returned() {
    let t = tree(Some(main_of(vec![("a", "Int"), ("b", "Int")], "Int")));
    let entry = single(&t, var("b"), &backend(vec![8, 24], vec![40])).unwrap();
    assert_eq!(entry.main_schema.fields.len(), 2);
    assert_eq!(entry.return_schema.name, "Ret");
    assert_eq!(entry.module.entry_func_index, Some(0));
    let run = &entry.module.funcs[0];
    assert_eq!(run.name, "run_main");
    assert_eq!(
        run.params,
        vec![IrType::I32, IrType::I32, IrType::I32, IrType::I32, IrType::I64]
    );
    assert_eq!(run.ret, IrType::I32);
    assert_eq!(
        simple(&run.body),
        vec![
            SimpleOp::LoadField { offset: 24, ty: IrType::I64 },
            SimpleOp::StoreField { offset: 40, ty: IrType::I64, inplace: false },
            SimpleOp::Return,
        ]
    );
}

#[test]
fn a_dictionary_is_stored_field_by_field() {
    let t = tree(Some(main_of(vec![("a", "Int")], "Dict")));
    let root = node(Expr::Dict(vec![
        (key("p"), var("a")),
        (key("q"), node(Expr::Bool(true))),
    ]));
    let entry = single(&t, root, &backend(vec![8], vec![0, 16])).unwrap();
    let body = simple(&entry.module.funcs[0].body);
    assert_eq!(body[0], SimpleOp::AllocRootRecord { record_local_idx: 0 });
    assert_eq!(body.last(), Some(&SimpleOp::Return));
    assert!(body.contains(&SimpleOp::StoreFieldAtRecord {
        record_local_idx: 0,
        offset: 0,
        ty: IrType::I64,
    }));
    assert!(body.contains(&SimpleOp::StoreFieldAtRecord {
        record_local_idx: 0,
        offset: 16,
        ty: IrType::Bool,
    }));
}

#[test]
fn host_functions_of_the_module_are_imported() {
    let mut t = tree(Some(main_of(vec![("a", "Int")], "Int")));
    t.host_fns = host_fns(vec![
        ("unused", HostFnSignature { params: vec![], return_type: named("Int") }),
        ("twice", HostFnSignature { params: vec![named("Int")], return_type: named("Int") }),
        ("odd", HostFnSignature { params: vec![named("Blob")], return_type: named("Int") }),
    ]);
    let entry = single(&t, call(&["twice"], vec![var("a")]), &backend(vec![8], vec![0])).unwrap();
    let names: Vec<&str> = entry.module.imports.iter().map(|i| i.name.as_str()).collect();
    assert_eq!(names, vec!["twice"]);
    assert!(single(&t, call(&["odd"], vec![var("a")]), &backend(vec![8], vec![0])).is_err());
}

#[test]
fn an_unbound_name_is_reported() {
    let t = tree(Some(main_of(vec![("a", "Int")], "Int")));
    assert_eq!(
        single(&t, var("zz"), &backend(vec![8], vec![0])),
        Err(LoweringError::UnresolvedVariable { name: "zz".to_string(), range: R })
    );
}

#[test]
fn a_module_without_an_entry_is_reported() {
    assert_eq!(
        single(&tree(None), var("a"), &backend(vec![], vec![])),
        Err(LoweringError::MissingMain { module: "main".to_string() })
    );
}

#[test]
fn closures_do_not_cross_the_boundary() {
    let t = tree(Some(main_of(vec![("f", "Closure")], "Int")));
    assert_eq!(
        single(&t, var("f"), &backend(vec![8], vec![0])),
        Err(LoweringError::ClosureAcrossBoundary {
            context: "`#main` parameter `f`".to_string(),
            range: R,
        })
    );
    let t = tree(Some(main_of(vec![], "Closure")));
    assert_eq!(
        single(&t, var("f"), &backend(vec![], vec![0])),
        Err(LoweringError::ClosureAcrossBoundary {
            context: "`#main` return type".to_string(),
            range: R,
        })
    );
}

#[test]
fn a_type_without_a_layout_is_reported() {
    let t = tree(Some(main_of(vec![("a", "Int")], "Int")));
    assert!(matches!(
        single(&t, var("a"), &backend(vec![8, 16], vec![0])),
        Err(LoweringError::UnsupportedTypeInMain { .. })
    ));
}

#[test]
fn the_entry_module_must_exist() {
    let m = tree(Some(main_of(vec![("a", "Int")], "Int")));
    assert_eq!(
        workspace(vec![("other", m)], vec![], "app", var("a")),
        Err(LoweringError::EntryModuleNotFound { module: "app".to_string() })
    );
}

#[test]
fn an_entry_module_lowers_with_what_it_imports() {
    let app = tree(Some(main_of(vec![("a", "Int")], "Int")));
    let lib = with_record(tree(None), "P", TypeRepr::Int);
    let entry =
        workspace(vec![("app", app), ("lib", lib)], vec![("app", vec!["lib"])], "app", var("a"))
            .unwrap();
    assert_eq!(
        simple(&entry.module.funcs[0].body)[0],
        SimpleOp::LoadField { offset: 16, ty: IrType::I64 }
    );
}

#[test]
fn a_second_entry_is_reported() {
    let app = tree(Some(main_of(vec![("a", "Int")], "Int")));
    let lib = tree(Some(main_of(vec![], "Int")));
    assert_eq!(
        workspace(vec![("app", app), ("lib", lib)], vec![("app", vec!["lib"])], "app", var("a")),
        Err(LoweringError::MultipleMainDirectives {
            entry_module: "app".to_string(),
            other_module: "lib".to_string(),
        })
    );
}

#[test]
fn an_entry_that_is_not_reached_does_not_count() {
    let app = tree(Some(main_of(vec![("a", "Int")], "Int")));
    let lib = tree(Some(main_of(vec![], "Int")));
    assert!(workspace(vec![("app", app), ("lib", lib)], vec![], "app", var("a")).is_ok());
}

#[test]
fn contradicting_declarations_are_reported() {
    let app = with_record(tree(Some(main_of(vec![("a", "Int")], "Int"))), "P", TypeRepr::Int);
    let lib = with_record(tree(None), "P", TypeRepr::Bool);
    match workspace(vec![("app", app), ("lib", lib)], vec![("app", vec!["lib"])], "app", var("a")) {
        Err(LoweringError::DuplicateSchemaAcrossFiles { name, first_module, second_module }) => {
            assert_eq!(name, "P");
            assert_ne!(first_module, second_module);
        }
        other => panic!("expected a contradiction, got {:?}", other),
    }
    let app = with_record(tree(Some(main_of(vec![("a", "Int")], "Int"))), "P", TypeRepr::Int);
    let lib = with_record(tree(None), "P", TypeRepr::Int);
    assert!(workspace(
        vec![("app", app), ("lib", lib)],
        vec![("app", vec!["lib"])],
        "app",
        var("a")
    )
    .is_ok());
}

#[test]
fn reachable_modules_are_found_through_imports() {
    let mut ws = WorkspaceTree { modules: NameTable::new(), import_graph: NameTable::new() };
    for name in ["a", "b", "c", "d"] {
        ws.modules.insert(name.to_string(), tree(None));
    }
    ws.import_graph.insert("a".to_string(), vec!["b".to_string()]);
    ws.import_graph.insert("b".to_string(), vec!["c".to_string(), "a".to_string()]);
    let mut found = reachable_modules(&ws, "a");
    found.sort();
    assert_eq!(found, vec!["a".to_string(), "b".to_string(), "c".to_string()]);
}

#[test]
fn records_differ_by_their_structure() {
    let make = |ty: TypeRepr| Schema {
        name: "P".to_string(),
        fields: vec![Field { name: "x".to_string(), ty }],
        is_tuple: false,
    };
    assert!(!schema_hashes_differ(&make(TypeRepr::Int), &make(TypeRepr::Int)));
    assert!(schema_hashes_differ(&make(TypeRepr::Int), &make(TypeRepr::Float)));
}

fn func(name: &str) -> Func {
    Func {
        name: name.to_string(),
        params: Vec::new(),
        ret: IrType::I32,
        body: Vec::new(),
        range: R,
    }
}

#[test]
fn a_module_holds_methods_entry_and_closures() {
    let m = assemble_module(
        vec![func("m0"), func("m1")],
        func("run_main"),
        vec![func("l0"), func("l1")],
        Vec::new(),
    );
    let names: Vec<&str> = m.funcs.iter().map(|f| f.name.as_str()).collect();
    assert_eq!(names, vec!["m0", "m1", "run_main", "l0", "l1"]);
    assert_eq!(m.entry_func_index, Some(2));
    assert_eq!(m.closure_table, vec![3, 4]);
}

#[test]
fn reserved_closure_slots_must_be_filled() {
    let mut t = LambdaTable::new();
    assert_eq!(t.reserve_lambda_slot(), 0);
    assert_eq!(t.reserve_lambda_slot(), 1);
    t.set_lambda_slot(0, func("outer"));
    t.set_lambda_slot(1, func("inner"));
    let names: Vec<String> = t.into_funcs(R).unwrap().into_iter().map(|f| f.name).collect();
    assert_eq!(names, vec!["outer".to_string(), "inner".to_string()]);
    let mut t = LambdaTable::new();
    t.reserve_lambda_slot();
    assert_eq!(
        t.into_funcs(R),
        Err(LoweringError::UnsupportedExpr {
            kind: "closure-table slot 0 reserved but never filled".to_string(),
            range: R,
        })
    );
}

#[test]
fn a_closure_is_numbered_before_those_in_it() {
    let start = Slots::new();
    let (outer, inside) = start.reserve_lambda_slot();
    let (inner, behind) = inside.reserve_lambda_slot();
    assert_eq!((outer, inner), (0, 1));
    let done = behind.set_lambda_slot(inner, func("inner")).set_lambda_slot(outer, func("outer"));
    let names: Vec<String> =
        done.closures.into_funcs(R).unwrap().into_iter().map(|f| f.name).collect();
    assert_eq!(names, vec!["outer".to_string(), "inner".to_string()]);
    // The states before are as they were.
    assert_eq!(start.closures.slots.len(), 0);
    assert!(behind.closures.into_funcs(R).is_err());
}

#[test]
fn one_module_is_its_own_workspace() {
    let module = || with_record(tree(Some(main_of(vec![("a", "Int")], "Int"))), "P", TypeRepr::Int);
    let alone = single(&module(), var("a"), &backend(vec![16], vec![0]));
    assert!(alone.is_ok());
    assert_eq!(workspace(vec![("main", module())], vec![], "main", var("a")), alone);
    assert_eq!(
        workspace(vec![("main", module())], vec![("main", vec!["gone"])], "main", var("a")),
        alone
    );
}

#[test]
fn levels_beyond_those_of_the_body_change_nothing() {
    let table = StdlibTable { entries: Vec::new() };
    let builtins = vec!["Int".to_string()];
    let module = tree(Some(main_of(vec![("a", "Int")], "Int")));
    let three = || Deepened { inner: backend(vec![16], vec![0]) };
    let four = || Deepened { inner: three() };
    let total = || call(&["list", "sum"], vec![call(&["range"], vec![var("a")])]);
    let less = lower_workspace_single(&module, total(), &three(), &table, &builtins);
    let more = lower_workspace_single(&module, total(), &four(), &table, &builtins);
    assert!(less.is_ok());
    assert_eq!(less, more);
    let unbound = || call(&["list", "sum"], vec![call(&["range"], vec![var("b")])]);
    let less = lower_workspace_single(&module, unbound(), &three(), &table, &builtins);
    let more = lower_workspace_single(&module, unbound(), &four(), &table, &builtins);
    assert!(less.is_err());
    assert_eq!(less, more);
}

#[test]
fn a_counter_stands_for_levels() {
    let table = StdlibTable { entries: Vec::new() };
    let builtins = vec!["Int".to_string()];
    let module = tree(Some(main_of(vec![("a", "Int")], "Int")));
    let counted = |levels: usize| Counted { inner: leaves(vec![16], vec![0]), levels };
    let total = || call(&["list", "sum"], vec![call(&["range"], vec![var("a")])]);
    let three = Deepened { inner: backend(vec![16], vec![0]) };
    let levels = lower_workspace_single(&module, total(), &three, &table, &builtins);
    assert!(levels.is_ok());
    for n in [3, 4, 100] {
        let r = lower_workspace_single(&module, total(), &counted(n), &table, &builtins);
        assert_eq!(r, levels);
    }
    assert!(lower_workspace_single(&module, total(), &counted(0), &table, &builtins).is_err());
}

#[test]
fn one_module_gives_the_same_alone_and_as_a_workspace() {
    let module = || tree(Some(main_of(vec![("a", "Int")], "Int")));
    let bodies = || vec![var("a"), var("b"), call(&["list", "sum"], vec![var("a")])];
    for (x, y) in bodies().into_iter().zip(bodies()) {
        let alone = single(&module(), x, &backend(vec![16], vec![0]));
        assert_eq!(workspace(vec![("main", module())], vec![], "main", y), alone);
    }
}

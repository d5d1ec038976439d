use relon_ir::ir::IrType;
use relon_ir::names::NameTable;
use relon_ir::native_import::{
    undeclared_gate_imports, HostFnEntry, HostFnSignature, HostFnTables, ImportTable, NativeFnGate,
    NativeImportBuilder, NO_CAPABILITY_BIT,
};
use relon_ir::ast::{TokenRange, TypeNode};

fn entry() -> HostFnEntry {
    HostFnEntry { param_tys: Vec::new(), ret_ty: IrType::I64, required_bits: Vec::new() }
}

fn resolved(names: &[&str]) -> NameTable<HostFnEntry> {
    let mut table = NameTable::new();
    for name in names {
        table.insert(name.to_string(), entry());
    }
    table
}

fn gates(names: &[&str]) -> NameTable<()> {
    let mut table = NameTable::new();
    for name in names {
        table.insert(name.to_string(), ());
    }
    table
}

fn pure_names(names: &[&str]) -> Vec<String> {
    names.iter().map(|n| n.to_string()).collect()
}

fn type_named(name: &str) -> TypeNode {
    TypeNode {
        path: vec![name.to_string()],
        generics: Vec::new(),
        is_optional: false,
        variant_fields: None,
        range: TokenRange { start: 0, end: 0 },
    }
}

#[test]
fn mod_signature_without_gate_or_purity_is_reported() {
    assert_eq!(
        undeclared_gate_imports(&resolved(&["read_net"]), &gates(&[]), &pure_names(&[])),
        vec!["read_net".to_string()]
    );
}

#[test]
fn mod_empty_gate_entry_declares_intent_and_is_silent() {
    assert!(undeclared_gate_imports(
        &resolved(&["pure_add"]),
        &gates(&["pure_add"]),
        &pure_names(&[])
    )
    .is_empty());
}

#[test]
fn mod_declared_pure_via_purity_set_is_silent() {
    assert!(undeclared_gate_imports(
        &resolved(&["pure_add"]),
        &gates(&[]),
        &pure_names(&["pure_add"])
    )
    .is_empty());
}

#[test]
fn mod_gated_effectful_fn_is_silent() {
    assert!(undeclared_gate_imports(
        &resolved(&["clock_add"]),
        &gates(&["clock_add"]),
        &pure_names(&[])
    )
    .is_empty());
}

#[test]
fn mod_report_is_sorted_and_only_covers_undeclared() {
    assert_eq!(
        undeclared_gate_imports(
            &resolved(&["zeta", "alpha", "declared", "pure_one"]),
            &gates(&["declared"]),
            &pure_names(&["pure_one"])
        ),
        vec!["alpha".to_string(), "zeta".to_string()]
    );
}

#[test]
fn native_import_signature_without_gate_or_purity_is_reported() {
    assert_eq!(
        undeclared_gate_imports(&resolved(&["read_net"]), &gates(&[]), &pure_names(&[])),
        vec!["read_net".to_string()]
    );
}

#[test]
fn native_import_empty_gate_entry_declares_intent_and_is_silent() {
    assert!(undeclared_gate_imports(
        &resolved(&["pure_add"]),
        &gates(&["pure_add"]),
        &pure_names(&[])
    )
    .is_empty());
}

#[test]
fn native_import_declared_pure_via_purity_set_is_silent() {
    assert!(undeclared_gate_imports(
        &resolved(&["pure_add"]),
        &gates(&[]),
        &pure_names(&["pure_add"])
    )
    .is_empty());
}

#[test]
fn native_import_gated_effectful_fn_is_silent() {
    assert!(undeclared_gate_imports(
        &resolved(&["clock_add"]),
        &gates(&["clock_add"]),
        &pure_names(&[])
    )
    .is_empty());
}

#[test]
fn native_import_report_is_sorted_and_only_covers_undeclared() {
    assert_eq!(
        undeclared_gate_imports(
            &resolved(&["zeta", "alpha", "declared", "pure_one"]),
            &gates(&["declared"]),
            &pure_names(&["pure_one"])
        ),
        vec!["alpha".to_string(), "zeta".to_string()]
    );
}

#[test]
fn a_name_is_interned_once() {
    let mut builder = NativeImportBuilder {
        resolved: NameTable::new(),
        table: ImportTable { imports: Vec::new() },
    };
    assert_eq!(builder.intern("clock", &entry()), 0);
    assert_eq!(builder.intern("random", &entry()), 1);
    assert_eq!(builder.intern("clock", &entry()), 0);
    let names: Vec<&str> = builder.table.imports.iter().map(|i| i.name.as_str()).collect();
    assert_eq!(names, vec!["clock", "random"]);
    assert_eq!(builder.table.imports[0].cap_bit, NO_CAPABILITY_BIT);
}

#[test]
fn host_functions_resolve_by_their_types() {
    let mut signatures = NameTable::new();
    signatures.insert(
        "twice".to_string(),
        HostFnSignature { params: vec![type_named("Int")], return_type: type_named("Int") },
    );
    signatures.insert(
        "odd".to_string(),
        HostFnSignature { params: vec![type_named("Widget")], return_type: type_named("Int") },
    );
    let mut gate_table = NameTable::new();
    gate_table.insert("twice".to_string(), NativeFnGate { bits: vec![3, 1] });
    let tables = HostFnTables { signatures, gates: gate_table, pure: Vec::new() };
    let builder = NativeImportBuilder::from_tree(&tables);
    assert_eq!(builder.table.imports.len(), 0);
    let twice = builder.resolved.get("twice").unwrap();
    assert_eq!(twice.param_tys, vec![IrType::I64]);
    assert_eq!(twice.ret_ty, IrType::I64);
    assert_eq!(twice.required_bits, vec![3, 1]);
    assert!(builder.resolved.get("odd").is_none());
}

//! Host functions: their resolution into call signatures, the import table,
//! and the guarded call.

use vstd::prelude::*;

use crate::ast::{all_positional, positional_only, CallArg, TokenRange, TypeNode};
use crate::error::{ErrorView, LoweringError};
use crate::fragment::{
    maybe_outcome, outcome, Fragment, FragmentView, Scope, Slots, SlotsView, SubLowering,
};
use crate::ir::{
    copy_types, emit, emit_all, emit_simple, ops_view, sop, IrType, Op, OpView, SimpleOp,
    TaggedOp, TaggedOpView,
};
use crate::names::{among, ascending, insert_sorted, is_among, name_index, NameTable};
use crate::shape::{native_ir_type, type_node_to_ir_type};
use crate::text::{decimal, decimal_chars, join3, same_text};

verus! {

/// Marks a call without a capability bit of its own.
pub const NO_CAPABILITY_BIT: u32 = 0xffff_ffff;

/// A host function in call-ready form: its types, and the capability bits its
/// gate requires in declaration order.
#[derive(Debug, PartialEq, Eq)]
pub struct HostFnEntry {
    pub param_tys: Vec<IrType>,
    pub ret_ty: IrType,
    pub required_bits: Vec<u32>,
}

/// The mathematical value of a [`HostFnEntry`].
pub ghost struct EntryView {
    pub param_tys: Seq<IrType>,
    pub ret_ty: IrType,
    pub required_bits: Seq<u32>,
}

impl View for HostFnEntry {
    type V = EntryView;

    open spec fn view(&self) -> EntryView {
        EntryView {
            param_tys: self.param_tys@,
            ret_ty: self.ret_ty,
            required_bits: self.required_bits@,
        }
    }
}

/// A host function as declared.
#[derive(Debug, PartialEq, Eq)]
pub struct HostFnSignature {
    pub params: Vec<TypeNode>,
    pub return_type: TypeNode,
}

/// The capabilities a host function needs.
#[derive(Debug, PartialEq, Eq)]
pub struct NativeFnGate {
    pub bits: Vec<u32>,
}

/// What the analyzed source knows of host functions.
#[derive(Debug, PartialEq, Eq)]
pub struct HostFnTables {
    pub signatures: NameTable<HostFnSignature>,
    pub gates: NameTable<NativeFnGate>,
    pub pure: Vec<String>,
}

/// One emitted import.
#[derive(Debug, PartialEq, Eq)]
pub struct NativeImport {
    pub name: String,
    pub param_tys: Vec<IrType>,
    pub ret_ty: IrType,
    pub cap_bit: u32,
}

/// The mathematical value of a [`NativeImport`].
pub ghost struct ImportView {
    pub name: Seq<char>,
    pub param_tys: Seq<IrType>,
    pub ret_ty: IrType,
    pub cap_bit: u32,
}

impl View for NativeImport {
    type V = ImportView;

    open spec fn view(&self) -> ImportView {
        ImportView {
            name: self.name@,
            param_tys: self.param_tys@,
            ret_ty: self.ret_ty,
            cap_bit: self.cap_bit,
        }
    }
}

/// The mathematical value of an import table.
pub open spec fn imports_view(imports: Seq<NativeImport>) -> Seq<ImportView> {
    Seq::new(imports.len(), |i: int| imports[i]@)
}

/// The imports emitted so far.
#[derive(Debug, PartialEq, Eq)]
pub struct ImportTable {
    pub imports: Vec<NativeImport>,
}

impl View for ImportTable {
    type V = Seq<ImportView>;

    open spec fn view(&self) -> Seq<ImportView> {
        imports_view(self.imports@)
    }
}

/// The resolved host functions and the imports emitted so far.
#[derive(Debug, PartialEq, Eq)]
pub struct NativeImportBuilder {
    pub resolved: NameTable<HostFnEntry>,
    pub table: ImportTable,
}

/// The call types of several declared types, if all have one.
pub open spec fn native_types(ts: Seq<TypeNode>) -> Option<Seq<IrType>>
    decreases ts.len(),
{
    if ts.len() == 0 {
        Some(Seq::empty())
    } else {
        match (native_types(ts.drop_last()), native_ir_type(ts.last())) {
            (Some(init), Some(last)) => Some(init.push(last)),
            _ => None,
        }
    }
}

proof fn lemma_native_types_prefix(ts: Seq<TypeNode>, k: int)
    requires
        0 <= k <= ts.len(),
        native_types(ts.take(k)) is None,
    ensures
        native_types(ts) is None,
    decreases ts.len(),
{
    if k == ts.len() {
        assert(ts.take(k) =~= ts);
    } else {
        assert(ts.drop_last().take(k) =~= ts.take(k));
        lemma_native_types_prefix(ts.drop_last(), k);
    }
}

fn convert_types(ts: &Vec<TypeNode>) -> (r: Option<Vec<IrType>>)
    ensures
        match r {
            Some(v) => native_types(ts@) == Some(v@),
            None => native_types(ts@) is None,
        },
{
    let mut out: Vec<IrType> = Vec::new();
    let mut i: usize = 0;
    assert(ts@.take(0) =~= Seq::empty());
    while i < ts.len()
        invariant
            i <= ts.len(),
            native_types(ts@.take(i as int)) == Some(out@),
        decreases ts.len() - i,
    {
        assert(ts@.take(i + 1).drop_last() =~= ts@.take(i as int));
        assert(ts@.take(i + 1).last() == ts@[i as int]);
        match type_node_to_ir_type(&ts[i]) {
            Some(ty) => {
                out.push(ty);
            },
            None => {
                proof {
                    lemma_native_types_prefix(ts@, i + 1);
                }
                return None;
            },
        }
        i += 1;
    }
    assert(ts@.take(ts@.len() as int) =~= ts@);
    Some(out)
}

/// The capability bits of a name: those of its gate, or none.
pub open spec fn required_bits(gates: NameTable<NativeFnGate>, name: Seq<char>) -> Seq<u32> {
    match name_index(gates.entries@, name, 0) {
        Some(i) => gates.entries@[i].1.bits@,
        None => Seq::empty(),
    }
}

/// The call-ready form of a declared host function; a signature with a type
/// outside the native envelope has none.
pub open spec fn resolve_entry(
    sig: HostFnSignature,
    gates: NameTable<NativeFnGate>,
    name: Seq<char>,
) -> Option<EntryView> {
    match (native_types(sig.params@), native_ir_type(sig.return_type)) {
        (Some(param_tys), Some(ret_ty)) => Some(
            EntryView { param_tys, ret_ty, required_bits: required_bits(gates, name) },
        ),
        _ => None,
    }
}

/// The names and call-ready forms of a resolved table.
pub open spec fn entries_view(entries: Seq<(String, HostFnEntry)>) -> Seq<(Seq<char>, EntryView)> {
    Seq::new(entries.len(), |i: int| (entries[i].0@, entries[i].1@))
}

/// The resolvable host functions in declaration order.
pub open spec fn resolve_all(
    sigs: Seq<(String, HostFnSignature)>,
    gates: NameTable<NativeFnGate>,
) -> Seq<(Seq<char>, EntryView)>
    decreases sigs.len(),
{
    if sigs.len() == 0 {
        Seq::empty()
    } else {
        let init = resolve_all(sigs.drop_last(), gates);
        match resolve_entry(sigs.last().1, gates, sigs.last().0@) {
            Some(e) => init.push((sigs.last().0@, e)),
            None => init,
        }
    }
}

/// A resolved name is a declared one.
proof fn lemma_resolved_declared(
    sigs: Seq<(String, HostFnSignature)>,
    gates: NameTable<NativeFnGate>,
    k: int,
)
    requires
        0 <= k < resolve_all(sigs, gates).len(),
    ensures
        exists|i: int|
            0 <= i < sigs.len() && (#[trigger] sigs[i]).0@ == resolve_all(sigs, gates)[k].0,
    decreases sigs.len(),
{
    if sigs.len() > 0 {
        let init = resolve_all(sigs.drop_last(), gates);
        if k < init.len() {
            lemma_resolved_declared(sigs.drop_last(), gates, k);
            let i = choose|i: int|
                0 <= i < sigs.drop_last().len() && (#[trigger] sigs.drop_last()[i]).0@
                    == init[k].0;
            assert(sigs[i] == sigs.drop_last()[i]);
        } else {
            assert(sigs[sigs.len() - 1] == sigs.last());
        }
    }
}

fn copy_bits(bits: &Vec<u32>) -> (r: Vec<u32>)
    ensures
        r@ == bits@,
{
    let mut out: Vec<u32> = Vec::new();
    let mut i: usize = 0;
    while i < bits.len()
        invariant
            i <= bits.len(),
            out@ == bits@.take(i as int),
        decreases bits.len() - i,
    {
        out.push(bits[i]);
        assert(bits@.take(i + 1) =~= bits@.take(i as int).push(bits@[i as int]));
        i += 1;
    }
    assert(bits@.take(bits@.len() as int) =~= bits@);
    out
}

/// The index of the import of a name.
pub open spec fn import_index(imports: Seq<ImportView>, name: Seq<char>, from: int) -> Option<int>
    decreases imports.len() - from,
{
    if from < 0 || from >= imports.len() {
        None
    } else if imports[from].name == name {
        Some(from)
    } else {
        import_index(imports, name, from + 1)
    }
}

/// The import table and index after interning a host function: a name keeps
/// its index, and a new one is appended without a capability bit of its own.
pub open spec fn intern_import(imports: Seq<ImportView>, name: Seq<char>, entry: EntryView) -> (
    Seq<ImportView>,
    int,
) {
    match import_index(imports, name, 0) {
        Some(i) => (imports, i),
        None => (
            imports.push(
                ImportView {
                    name,
                    param_tys: entry.param_tys,
                    ret_ty: entry.ret_ty,
                    cap_bit: NO_CAPABILITY_BIT,
                },
            ),
            imports.len() as int,
        ),
    }
}

impl NativeImportBuilder {
    /// Resolves the declared host functions; no import is emitted yet.
    pub fn from_tree(tree: &HostFnTables) -> (r: Self)
        ensures
            entries_view(r.resolved.entries@) == resolve_all(
                tree.signatures.entries@,
                tree.gates,
            ),
            tree.signatures.wf() ==> r.resolved.wf(),
            r.table@.len() == 0,
    {
        let mut entries: Vec<(String, HostFnEntry)> = Vec::new();
        let mut i: usize = 0;
        let ghost sigs = tree.signatures.entries@;
        assert(sigs.take(0) =~= Seq::empty());
        assert(entries_view(entries@) =~= Seq::empty());
        while i < tree.signatures.entries.len()
            invariant
                i <= tree.signatures.entries.len(),
                sigs == tree.signatures.entries@,
                entries_view(entries@) == resolve_all(sigs.take(i as int), tree.gates),
                tree.signatures.wf() ==> forall|a: int, b: int|
                    0 <= a < b < entries@.len() ==> (#[trigger] entries@[a]).0@ != (
                    #[trigger] entries@[b]).0@,
            decreases tree.signatures.entries.len() - i,
        {
            assert(sigs.take(i + 1).drop_last() =~= sigs.take(i as int));
            assert(sigs.take(i + 1).last() == sigs[i as int]);
            let declared = &tree.signatures.entries[i];
            let name: &String = &declared.0;
            let sig: &HostFnSignature = &declared.1;
            match (convert_types(&sig.params), type_node_to_ir_type(&sig.return_type)) {
                (Some(param_tys), Some(ret_ty)) => {
                    let required_bits: Vec<u32> = match tree.gates.get(name.as_str()) {
                        Some(gate) => copy_bits(&gate.bits),
                        None => Vec::new(),
                    };
                    let ghost before = entries@;
                    proof {
                        assert forall|a: int|
                            0 <= a < before.len() && tree.signatures.wf() implies (
                        #[trigger] before[a]).0@ != name@ by {
                            assert(entries_view(before)[a].0 == before[a].0@);
                            lemma_resolved_declared(sigs.take(i as int), tree.gates, a);
                            let k = choose|k: int|
                                0 <= k < sigs.take(i as int).len() && (#[trigger] sigs.take(
                                    i as int,
                                )[k]).0@ == before[a].0@;
                            assert(sigs[k] == sigs.take(i as int)[k]);
                            assert(sigs[k].0@ != sigs[i as int].0@);
                        }
                    }
                    entries.push((name.clone(), HostFnEntry { param_tys, ret_ty, required_bits }));
                    assert(entries_view(entries@) =~= entries_view(before).push(
                        (name@, entries@.last().1@),
                    ));
                    assert(required_bits@ =~= crate::native_import::required_bits(
                        tree.gates,
                        name@,
                    ));
                },
                _ => {},
            }
            i += 1;
        }
        assert(sigs.take(sigs.len() as int) =~= sigs);
        NativeImportBuilder {
            resolved: NameTable { entries },
            table: ImportTable { imports: Vec::new() },
        }
    }

    /// The index of the import of `name`, which is added if it is new.
    pub fn intern(&mut self, name: &str, entry: &HostFnEntry) -> (r: u32)
        ensures
            final(self).table@ == intern_import(old(self).table@, name@, entry@).0,
            r == intern_import(old(self).table@, name@, entry@).1 as u32,
            final(self).resolved == old(self).resolved,
    {
        let i: usize = self.table.intern(name, entry);
        i as u32
    }
}

impl ImportTable {
    /// The same imports again.
    pub fn copy(&self) -> (r: ImportTable)
        ensures
            r@ == self@,
    {
        let mut imports: Vec<NativeImport> = Vec::new();
        let mut i: usize = 0;
        while i < self.imports.len()
            invariant
                i <= self.imports.len(),
                imports_view(imports@) =~= self@.take(i as int),
            decreases self.imports.len() - i,
        {
            let import = &self.imports[i];
            let ghost before = imports@;
            imports.push(
                NativeImport {
                    name: import.name.clone(),
                    param_tys: copy_types(&import.param_tys),
                    ret_ty: import.ret_ty,
                    cap_bit: import.cap_bit,
                },
            );
            assert(imports@.last()@ == self@[i as int]);
            assert(imports_view(imports@) =~= imports_view(before).push(self@[i as int]));
            assert(self@.take(i + 1) =~= self@.take(i as int).push(self@[i as int]));
            i += 1;
        }
        ImportTable { imports }
    }

    /// The index of the import of `name`.
    pub fn find(&self, name: &str) -> (r: Option<usize>)
        ensures
            match r {
                Some(i) => import_index(self@, name@, 0) == Some(i as int),
                None => import_index(self@, name@, 0) is None,
            },
    {
        let mut i: usize = 0;
        while i < self.imports.len()
            invariant
                i <= self.imports.len(),
                import_index(self@, name@, i as int) == import_index(self@, name@, 0),
            decreases self.imports.len() - i,
        {
            if same_text(self.imports[i].name.as_str(), name) {
                return Some(i);
            }
            i += 1;
        }
        None
    }

    /// The index of the import of `name`, which is added if it is new.
    pub fn intern(&mut self, name: &str, entry: &HostFnEntry) -> (r: usize)
        ensures
            (final(self)@, r as int) == intern_import(old(self)@, name@, entry@),
    {
        match self.find(name) {
            Some(i) => i,
            None => {
                let n: usize = self.imports.len();
                self.imports.push(
                    NativeImport {
                        name: name.to_owned(),
                        param_tys: copy_types(&entry.param_tys),
                        ret_ty: entry.ret_ty,
                        cap_bit: NO_CAPABILITY_BIT,
                    },
                );
                assert(self@ =~= old(self)@.push(self.imports@.last()@));
                n
            },
        }
    }
}

/// Interning is stable: the import is found at the returned index under its
/// name, earlier imports keep their places, and interning the name again
/// changes nothing.
pub proof fn law_intern_import_stable(imports: Seq<ImportView>, name: Seq<char>, entry: EntryView)
    ensures
        ({
            let (after, i) = intern_import(imports, name, entry);
            &&& 0 <= i < after.len()
            &&& after[i].name == name
            &&& after.take(imports.len() as int) == imports
            &&& forall|other: EntryView| #[trigger] intern_import(after, name, other) == (after, i)
        }),
{
    lemma_import_index(imports, name, 0);
    let (after, i) = intern_import(imports, name, entry);
    assert(after.take(imports.len() as int) =~= imports);
    lemma_import_index(after, name, 0);
}

proof fn lemma_import_index(imports: Seq<ImportView>, name: Seq<char>, from: int)
    requires
        0 <= from,
    ensures
        match import_index(imports, name, from) {
            Some(i) => from <= i < imports.len() && imports[i].name == name && forall|k: int|
                from <= k < i ==> (#[trigger] imports[k]).name != name,
            None => forall|k: int|
                from <= k < imports.len() ==> (#[trigger] imports[k]).name != name,
        },
    decreases imports.len() - from,
{
    if from < imports.len() && imports[from].name != name {
        lemma_import_index(imports, name, from + 1);
    }
}

/// Interning under distinct names never gives the same index twice.
pub proof fn law_distinct_imports(
    imports: Seq<ImportView>,
    a: Seq<char>,
    ea: EntryView,
    b: Seq<char>,
    eb: EntryView,
)
    requires
        a != b,
    ensures
        ({
            let (after, i) = intern_import(imports, a, ea);
            let (_, j) = intern_import(after, b, eb);
            i != j
        }),
{
    lemma_import_index(imports, a, 0);
    let (after, i) = intern_import(imports, a, ea);
    lemma_import_index(after, b, 0);
    assert(after[i].name == a);
}

/// The name has a signature but neither a gate nor a purity declaration.
pub open spec fn undeclared<G>(
    resolved: NameTable<HostFnEntry>,
    gates: NameTable<G>,
    pure: Seq<String>,
    name: Seq<char>,
) -> bool {
    resolved.has(name) && !gates.has(name) && !among(pure, name)
}

/// The names with a signature but neither gate nor purity declaration, in
/// ascending order.
pub fn undeclared_gate_imports<G>(
    resolved: &NameTable<HostFnEntry>,
    gates: &NameTable<G>,
    pure: &Vec<String>,
) -> (r: Vec<String>)
    requires
        resolved.wf(),
    ensures
        ascending(r@),
        forall|name: Seq<char>|
            #[trigger] among(r@, name) <==> undeclared(*resolved, *gates, pure@, name),
{
    let mut out: Vec<String> = Vec::new();
    let mut i: usize = 0;
    while i < resolved.entries.len()
        invariant
            i <= resolved.entries.len(),
            resolved.wf(),
            ascending(out@),
            forall|name: Seq<char>|
                #[trigger] among(out@, name) <==> !gates.has(name) && !among(pure@, name) && exists|
                    k: int,
                |
                    0 <= k < i && (#[trigger] resolved.entries@[k]).0@ == name,
        decreases resolved.entries.len() - i,
    {
        let name: &String = &resolved.entries[i].0;
        let ghost before = out@;
        assert(!among(out@, name@)) by {
            if exists|k: int| 0 <= k < i && (#[trigger] resolved.entries@[k]).0@ == name@ {
                let k = choose|k: int|
                    0 <= k < i && (#[trigger] resolved.entries@[k]).0@ == name@;
                assert(resolved.entries@[k].0@ != resolved.entries@[i as int].0@);
            }
        }
        if !gates.contains_key(name.as_str()) && !is_among(pure, name.as_str()) {
            insert_sorted(&mut out, name.clone());
        }
        assert forall|t: Seq<char>|
            #[trigger] among(out@, t) <==> !gates.has(t) && !among(pure@, t) && exists|k: int|
                0 <= k < i + 1 && (#[trigger] resolved.entries@[k]).0@ == t by {
            if exists|k: int| 0 <= k < i + 1 && (#[trigger] resolved.entries@[k]).0@ == t {
                let k = choose|k: int|
                    0 <= k < i + 1 && (#[trigger] resolved.entries@[k]).0@ == t;
                assert(k < i || t == name@);
                if t != name@ {
                    assert(0 <= k < i && resolved.entries@[k].0@ == t);
                }
            }
            if among(before, t) {
                let k = choose|k: int| 0 <= k < i && (#[trigger] resolved.entries@[k]).0@ == t;
                assert(0 <= k < i + 1);
            }
            if t == name@ {
                assert(resolved.entries@[i as int].0@ == t);
            }
        }
        i += 1;
    }
    out
}

// ---------------------------------------------------------------------------
// Guarded calls.
// ---------------------------------------------------------------------------

/// One capability check per required bit.
pub open spec fn cap_checks(bits: Seq<u32>, range: TokenRange) -> Seq<TaggedOpView> {
    Seq::new(bits.len(), |i: int| sop(SimpleOp::CheckCap { cap_bit: bits[i] }, range))
}

/// The arguments of a host call, each of its declared type.
pub open spec fn native_args<L: SubLowering>(
    low: L,
    name: Seq<char>,
    args: Seq<CallArg>,
    tys: Seq<IrType>,
    range: TokenRange,
    scope: Scope<'_>,
    at: SlotsView,
) -> Result<FragmentView, ErrorView>
    decreases args.len(),
{
    if args.len() == 0 {
        Ok(FragmentView { ops: Seq::empty(), ty: None, slots: at })
    } else {
        let i = args.len() - 1;
        match native_args(low, name, args.drop_last(), tys, range, scope, at) {
            Err(e) => Err(e),
            Ok(pre) => match low.lowered(args.last().value, scope, pre.slots) {
                Err(e) => Err(e),
                Ok(f) => match f.ty {
                    None => Err(
                        ErrorView::UnsupportedExpr {
                            kind: "FnCall(native arg"@ + decimal_chars(i as nat)
                                + "-stack-empty for `"@ + name + "`)"@,
                            range,
                        },
                    ),
                    Some(got) => if got != tys[i] {
                        Err(
                            ErrorView::UnsupportedExpr {
                                kind: "FnCall(`"@ + name + "`) native arg "@ + decimal_chars(
                                    i as nat,
                                ) + " type mismatch: expected "@ + tys[i].tag() + ", got "@
                                    + got.tag(),
                                range,
                            },
                        )
                    } else {
                        Ok(FragmentView { ops: pre.ops + f.ops, ty: None, slots: f.slots })
                    },
                },
            },
        }
    }
}

proof fn lemma_native_args_prefix<L: SubLowering>(
    low: L,
    name: Seq<char>,
    args: Seq<CallArg>,
    tys: Seq<IrType>,
    range: TokenRange,
    scope: Scope<'_>,
    at: SlotsView,
    k: int,
)
    requires
        0 <= k <= args.len(),
        native_args(low, name, args.take(k), tys, range, scope, at) is Err,
    ensures
        native_args(low, name, args, tys, range, scope, at) == native_args(
            low,
            name,
            args.take(k),
            tys,
            range,
            scope,
            at,
        ),
    decreases args.len(),
{
    if k == args.len() {
        assert(args.take(k) =~= args);
    } else {
        assert(args.drop_last().take(k) =~= args.take(k));
        lemma_native_args_prefix(low, name, args.drop_last(), tys, range, scope, at, k);
    }
}

fn emit_native_args<L: SubLowering>(
    name: &str,
    args: &Vec<CallArg>,
    tys: &Vec<IrType>,
    range: TokenRange,
    scope: &Scope<'_>,
    at: &Slots,
    low: &L,
) -> (r: Result<Fragment, LoweringError>)
    requires
        args@.len() == tys@.len(),
    ensures
        outcome(r) == native_args(*low, name@, args@, tys@, range, *scope, at@),
{
    let mut out: Vec<TaggedOp> = Vec::new();
    let mut slots: Slots = at.copy();
    let mut i: usize = 0;
    assert(args@.take(0) =~= Seq::empty());
    assert(ops_view(out@) =~= Seq::empty());
    while i < args.len()
        invariant
            i <= args.len(),
            args@.len() == tys@.len(),
            native_args(*low, name@, args@.take(i as int), tys@, range, *scope, at@) == Ok::<
                FragmentView,
                ErrorView,
            >(FragmentView { ops: ops_view(out@), ty: None, slots: slots@ }),
        decreases args.len() - i,
    {
        assert(args@.take(i + 1).drop_last() =~= args@.take(i as int));
        assert(args@.take(i + 1).last() == args@[i as int]);
        let f = match low.lower_node(&args[i].value, scope, &slots) {
            Err(e) => {
                proof {
                    lemma_native_args_prefix(
                        *low,
                        name@,
                        args@,
                        tys@,
                        range,
                        *scope,
                        at@,
                        i + 1,
                    );
                }
                return Err(e);
            },
            Ok(f) => f,
        };
        let position: String = decimal(i);
        let got = match f.ty {
            None => {
                proof {
                    lemma_native_args_prefix(
                        *low,
                        name@,
                        args@,
                        tys@,
                        range,
                        *scope,
                        at@,
                        i + 1,
                    );
                }
                let kind: String = join3(
                    "FnCall(native arg",
                    position.as_str(),
                    "-stack-empty for `",
                ).concat(name).concat("`)");
                return Err(LoweringError::UnsupportedExpr { kind, range });
            },
            Some(t) => t,
        };
        if got != tys[i] {
            proof {
                lemma_native_args_prefix(*low, name@, args@, tys@, range, *scope, at@, i + 1);
            }
            let kind: String = join3("FnCall(`", name, "`) native arg ").concat(
                position.as_str(),
            ).concat(" type mismatch: expected ").concat(tys[i].name()).concat(", got ").concat(
                got.name(),
            );
            return Err(LoweringError::UnsupportedExpr { kind, range });
        }
        slots = f.slots;
        emit_all(&mut out, f.ops);
        i += 1;
    }
    assert(args@.take(args@.len() as int) =~= args@);
    Ok(Fragment { ops: out, ty: None, slots })
}

/// The lowering of a call of a host function: every required capability is
/// checked before any argument is evaluated, and the call itself names the
/// import.
pub open spec fn native_call<L: SubLowering>(
    low: L,
    resolved: NameTable<HostFnEntry>,
    name: Seq<char>,
    args: Seq<CallArg>,
    range: TokenRange,
    scope: Scope<'_>,
    at: SlotsView,
) -> Result<Option<FragmentView>, ErrorView> {
    match name_index(resolved.entries@, name, 0) {
        None => Ok(None),
        Some(i) => {
            let entry = resolved.entries@[i].1@;
            if entry.param_tys.len() != args.len() {
                Ok(None)
            } else if !all_positional(args) {
                Err(
                    ErrorView::UnsupportedExpr {
                        kind: "FnCall(named-arg `"@ + name + "` for native fn)"@,
                        range,
                    },
                )
            } else {
                match native_args(low, name, args, entry.param_tys, range, scope, at) {
                    Err(e) => Err(e),
                    Ok(f) => Ok(
                        Some(
                            FragmentView {
                                ops: (cap_checks(entry.required_bits, range) + f.ops).push(
                                    TaggedOpView {
                                        op: OpView::CallNative {
                                            import_idx: f.slots.import_number(name, entry),
                                            param_tys: entry.param_tys,
                                            ret_ty: entry.ret_ty,
                                            cap_bit: NO_CAPABILITY_BIT,
                                        },
                                        range,
                                    },
                                ),
                                ty: Some(entry.ret_ty),
                                slots: f.slots.after_import(name, entry),
                            },
                        ),
                    ),
                }
            }
        },
    }
}

/// Lowers a call of a host function; `Ok(None)` when the name is none or the
/// number of arguments does not fit.
pub fn try_lower_native_call<L: SubLowering>(
    name: &str,
    args: &Vec<CallArg>,
    range: TokenRange,
    scope: &Scope<'_>,
    at: &Slots,
    low: &L,
    resolved: &NameTable<HostFnEntry>,
) -> (r: Result<Option<Fragment>, LoweringError>)
    ensures
        maybe_outcome(r) == native_call(*low, *resolved, name@, args@, range, *scope, at@),
{
    let entry: &HostFnEntry = match resolved.get(name) {
        None => {
            return Ok(None);
        },
        Some(e) => e,
    };
    if entry.param_tys.len() != args.len() {
        return Ok(None);
    }
    if !positional_only(args) {
        return Err(
            LoweringError::UnsupportedExpr {
                kind: join3("FnCall(named-arg `", name, "` for native fn)"),
                range,
            },
        );
    }
    let f = match emit_native_args(name, args, &entry.param_tys, range, scope, at, low) {
        Err(e) => {
            return Err(e);
        },
        Ok(f) => f,
    };
    let bits: &Vec<u32> = &entry.required_bits;
    let mut out: Vec<TaggedOp> = Vec::new();
    let mut i: usize = 0;
    assert(ops_view(out@) =~= cap_checks(bits@, range).take(0));
    while i < bits.len()
        invariant
            i <= bits.len(),
            ops_view(out@) == cap_checks(bits@, range).take(i as int),
        decreases bits.len() - i,
    {
        emit_simple(&mut out, SimpleOp::CheckCap { cap_bit: bits[i] }, range);
        assert(cap_checks(bits@, range).take(i + 1) =~= cap_checks(bits@, range).take(
            i as int,
        ).push(sop(SimpleOp::CheckCap { cap_bit: bits@[i as int] }, range)));
        i += 1;
    }
    assert(cap_checks(bits@, range).take(bits@.len() as int) =~= cap_checks(bits@, range));
    let (import_idx, slots) = f.slots.intern_import(name, entry);
    emit_all(&mut out, f.ops);
    emit(
        &mut out,
        Op::CallNative {
            import_idx,
            param_tys: copy_types(&entry.param_tys),
            ret_ty: entry.ret_ty,
            cap_bit: NO_CAPABILITY_BIT,
        },
        range,
    );
    Ok(Some(Fragment { ops: out, ty: Some(entry.ret_ty), slots }))
}

/// A host call starts with exactly the capability checks its gate requires, so
/// no argument is evaluated before all of them.
pub proof fn law_caps_checked_first<L: SubLowering>(
    low: L,
    resolved: NameTable<HostFnEntry>,
    name: Seq<char>,
    args: Seq<CallArg>,
    range: TokenRange,
    scope: Scope<'_>,
    at: SlotsView,
)
    ensures
        native_call(low, resolved, name, args, range, scope, at) matches Ok(Some(f))
            ==> (name_index(resolved.entries@, name, 0) matches Some(i) && ({
            let bits = resolved.entries@[i].1@.required_bits;
            f.ops.len() > bits.len() && f.ops.take(bits.len() as int) == cap_checks(bits, range)
        })),
{
    match native_call(low, resolved, name, args, range, scope, at) {
        Ok(Some(f)) => {
            let i = name_index(resolved.entries@, name, 0)->0;
            let bits = resolved.entries@[i].1@.required_bits;
            assert(f.ops.take(bits.len() as int) =~= cap_checks(bits, range));
        },
        _ => {},
    }
}

} // verus!

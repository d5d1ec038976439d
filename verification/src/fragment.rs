//! Lowered fragments, the scope they are lowered in, and the interface
//! through which emitters ask for the lowering of a sub-expression.

use std::rc::Rc;
use vstd::prelude::*;

use crate::ast::{Expr, Node, TokenKey, TokenRange};
use crate::error::{unsupported, ErrorView, LoweringError};
use crate::ir::{
    emit, emit_simple, ops_view, sop, IrType, Op, OpView, SimpleOp, TaggedOp, TaggedOpView,
};
use crate::module::{Func, FuncView, LambdaTable};
use crate::native_import::{intern_import, EntryView, HostFnEntry, ImportTable, ImportView};
use crate::stdlib::{interned, StringPool};
use crate::types::{Schema, TypeRepr};
use crate::variant::PayloadKey;

verus! {

/// The signature of a closure. The mask tells for which parameters a scalar
/// argument may be rendered as a string.
#[derive(Debug, PartialEq, Eq)]
pub struct ClosureSig {
    pub params: Vec<IrType>,
    pub ret: IrType,
    pub coercible: Vec<bool>,
}

/// The mathematical value of a [`ClosureSig`].
pub ghost struct SigView {
    pub params: Seq<IrType>,
    pub ret: IrType,
    pub coercible: Seq<bool>,
}

impl View for ClosureSig {
    type V = SigView;

    open spec fn view(&self) -> SigView {
        SigView { params: self.params@, ret: self.ret, coercible: self.coercible@ }
    }
}

/// A scalar literal that a name stands for; floats are carried as their bits.
#[derive(Clone, Copy, Debug, PartialEq, Eq, Structural)]
pub enum ScalarConst {
    I64(i64),
    F64(u64),
    Bool(bool),
}

impl ScalarConst {
    /// The instruction that pushes the literal.
    pub open spec fn op(self) -> SimpleOp {
        match self {
            ScalarConst::I64(v) => SimpleOp::ConstI64(v),
            ScalarConst::F64(bits) => SimpleOp::ConstF64(bits),
            ScalarConst::Bool(b) => SimpleOp::ConstBool(b),
        }
    }

    /// The type of the literal.
    pub open spec fn ty(self) -> IrType {
        match self {
            ScalarConst::I64(_) => IrType::I64,
            ScalarConst::F64(_) => IrType::F64,
            ScalarConst::Bool(_) => IrType::Bool,
        }
    }

    /// The instruction and the type of the literal.
    pub fn push(self) -> (r: (SimpleOp, IrType))
        ensures
            r == (self.op(), self.ty()),
    {
        match self {
            ScalarConst::I64(v) => (SimpleOp::ConstI64(v), IrType::I64),
            ScalarConst::F64(bits) => (SimpleOp::ConstF64(bits), IrType::F64),
            ScalarConst::Bool(b) => (SimpleOp::ConstBool(b), IrType::Bool),
        }
    }
}

/// A name bound to a let slot, with what is known of its value beyond the
/// instruction type: the record type it points at, its canonical type, the
/// signature of a closure, the literal it stands for.
#[derive(Debug, PartialEq, Eq)]
pub struct LetBinding<'a> {
    pub name: String,
    pub idx: u32,
    pub ty: IrType,
    pub schema_brand: Option<String>,
    pub type_repr: Option<&'a TypeRepr>,
    pub closure: Option<&'a ClosureSig>,
    pub constant: Option<ScalarConst>,
}

/// The read of a let binding: the literal it stands for, or its slot.
pub open spec fn binding_read(b: LetBinding<'_>) -> (SimpleOp, IrType) {
    match b.constant {
        Some(c) => (c.op(), c.ty()),
        None => (SimpleOp::LetGet { idx: b.idx, ty: b.ty }, b.ty),
    }
}

/// Executable form of [`binding_read`].
pub fn read_binding(b: &LetBinding<'_>) -> (r: (SimpleOp, IrType))
    ensures
        r == binding_read(*b),
{
    match b.constant {
        Some(c) => c.push(),
        None => (SimpleOp::LetGet { idx: b.idx, ty: b.ty }, b.ty),
    }
}

/// The name of a variant of a builtin type or of an enum.
#[derive(Clone, Copy, Debug, PartialEq, Eq)]
pub enum VariantName<'a> {
    Absent,
    Present,
    Success,
    Failure,
    Named(&'a String),
}

impl<'a> VariantName<'a> {
    /// The name as written.
    pub open spec fn text(self) -> Seq<char> {
        match self {
            VariantName::Absent => "None"@,
            VariantName::Present => "Some"@,
            VariantName::Success => "Ok"@,
            VariantName::Failure => "Err"@,
            VariantName::Named(s) => s@,
        }
    }

    /// Executable form of [`VariantName::text`].
    pub fn shown(&self) -> (r: &str)
        ensures
            r@ == self.text(),
    {
        match self {
            VariantName::Absent => "None",
            VariantName::Present => "Some",
            VariantName::Success => "Ok",
            VariantName::Failure => "Err",
            VariantName::Named(s) => s.as_str(),
        }
    }
}

/// What a variant carries: nothing, a single value in a named slot, or a
/// record.
#[derive(Clone, Copy, Debug, PartialEq, Eq)]
pub enum NarrowPayload<'a> {
    Unit,
    Direct(PayloadKey, &'a TypeRepr),
    Record(&'a Schema, &'a TypeRepr),
}

/// The variant that a variable is known to hold inside a match arm.
#[derive(Clone, Copy, Debug, PartialEq, Eq)]
pub struct EnumVariantNarrowing<'a> {
    pub variant: VariantName<'a>,
    pub tag: u8,
    pub payload: NarrowPayload<'a>,
}

/// The let bindings in force, innermost first, and the variants that variables
/// are known to hold.
#[derive(Debug, PartialEq, Eq)]
pub enum Scope<'a> {
    Empty,
    Bind(LetBinding<'a>, &'a Scope<'a>),
    Narrow(&'a String, EnumVariantNarrowing<'a>, &'a Scope<'a>),
}

impl<'a> Scope<'a> {
    /// The innermost binding of `name`.
    pub open spec fn find(self, name: Seq<char>) -> Option<LetBinding<'a>>
        decreases self,
    {
        match self {
            Scope::Empty => None,
            Scope::Bind(b, rest) => if b.name@ == name {
                Some(b)
            } else {
                rest.find(name)
            },
            Scope::Narrow(_, _, rest) => rest.find(name),
        }
    }

    /// The innermost variant that `name` is known to hold.
    pub open spec fn narrowed(self, name: Seq<char>) -> Option<EnumVariantNarrowing<'a>>
        decreases self,
    {
        match self {
            Scope::Empty => None,
            Scope::Bind(_, rest) => rest.narrowed(name),
            Scope::Narrow(var, n, rest) => if var@ == name {
                Some(n)
            } else {
                rest.narrowed(name)
            },
        }
    }

    /// Executable form of [`Scope::narrowed`].
    pub fn narrowing(&self, name: &String) -> (r: Option<&EnumVariantNarrowing<'a>>)
        ensures
            match r {
                Some(n) => self.narrowed(name@) == Some(*n),
                None => self.narrowed(name@) is None,
            },
        decreases self,
    {
        match self {
            Scope::Empty => None,
            Scope::Bind(_, rest) => rest.narrowing(name),
            Scope::Narrow(var, n, rest) => if **var == *name {
                Some(n)
            } else {
                rest.narrowing(name)
            },
        }
    }

    /// Executable form of [`Scope::find`].
    pub fn lookup(&self, name: &String) -> (r: Option<&LetBinding<'a>>)
        ensures
            match r {
                Some(b) => self.find(name@) == Some(*b),
                None => self.find(name@) is None,
            },
        decreases self,
    {
        match self {
            Scope::Empty => None,
            Scope::Bind(b, rest) => if b.name == *name {
                Some(b)
            } else {
                rest.lookup(name)
            },
            Scope::Narrow(_, _, rest) => rest.lookup(name),
        }
    }

    /// The scope with one more binding of which only the type is known.
    pub open spec fn with(self, name: String, idx: u32, ty: IrType) -> Scope<'a> {
        Scope::Bind(plain_binding(name, idx, ty), &self)
    }
}

/// A binding of which only the type is known.
pub open spec fn plain_binding<'a>(name: String, idx: u32, ty: IrType) -> LetBinding<'a> {
    LetBinding {
        name,
        idx,
        ty,
        schema_brand: None,
        type_repr: None,
        closure: None,
        constant: None,
    }
}

/// Extends a scope by one binding of which only the type is known.
pub fn bind<'a>(scope: &'a Scope<'a>, name: &String, idx: u32, ty: IrType) -> (r: Scope<'a>)
    ensures
        r == scope.with(*name, idx, ty),
{
    Scope::Bind(
        LetBinding {
            name: name.clone(),
            idx,
            ty,
            schema_brand: None,
            type_repr: None,
            closure: None,
            constant: None,
        },
        scope,
    )
}

/// The next free number of each kind of constant-pool record.
#[derive(Clone, Copy, Debug, PartialEq, Eq, Structural)]
pub struct PoolSlots {
    pub int_lists: u32,
    pub float_lists: u32,
    pub bool_lists: u32,
    pub string_lists: u32,
    pub dicts: u32,
}

/// The next free let slot, record slot and numbers in the constant pool, the
/// closure functions so far, and what the module has interned so far: its
/// strings and the host functions that it imports.
#[derive(Debug, PartialEq, Eq)]
pub struct Slots {
    pub lets: u32,
    pub records: u32,
    pub pool: PoolSlots,
    pub closures: Rc<LambdaTable>,
    pub strings: Rc<StringPool>,
    pub imports: Rc<ImportTable>,
}

/// The mathematical value of [`Slots`].
#[verifier::ext_equal]
pub ghost struct SlotsView {
    pub lets: u32,
    pub records: u32,
    pub pool: PoolSlots,
    pub closures: Seq<Option<FuncView>>,
    pub strings: Seq<Seq<char>>,
    pub imports: Seq<ImportView>,
}

impl View for Slots {
    type V = SlotsView;

    open spec fn view(&self) -> SlotsView {
        SlotsView {
            lets: self.lets,
            records: self.records,
            pool: self.pool,
            closures: self.closures@,
            strings: self.strings.texts(),
            imports: self.imports@,
        }
    }
}

/// `Rc::clone` of std: another pointer to the same value.
#[verifier::external_body]
pub(crate) fn shared<T>(value: &Rc<T>) -> (r: Rc<T>)
    ensures
        r == *value,
{
    Rc::clone(value)
}

/// The slot `k` places after `base`; slot numbers are 32 bits wide and stop at
/// the largest.
pub open spec fn slot_at(base: u32, k: int) -> u32 {
    if base + k > u32::MAX {
        u32::MAX
    } else {
        (base + k) as u32
    }
}

/// Executable form of [`slot_at`].
pub fn slot(base: u32, k: u32) -> (r: u32)
    ensures
        r == slot_at(base, k as int),
{
    base.saturating_add(k)
}

impl SlotsView {
    /// The state before anything is lowered.
    pub open spec fn start() -> SlotsView {
        SlotsView {
            lets: 0,
            records: 0,
            pool: PoolSlots { int_lists: 0, float_lists: 0, bool_lists: 0, string_lists: 0, dicts: 0 },
            closures: Seq::empty(),
            strings: Seq::empty(),
            imports: Seq::empty(),
        }
    }

    /// The counters after reserving `k` let slots.
    pub open spec fn after(self, k: int) -> SlotsView {
        SlotsView { lets: slot_at(self.lets, k), ..self }
    }

    /// The counters after reserving one record slot.
    pub open spec fn after_record(self) -> SlotsView {
        SlotsView { records: slot_at(self.records, 1), ..self }
    }

    /// The counters with other constant-pool counters.
    pub open spec fn with_pool(self, pool: PoolSlots) -> SlotsView {
        SlotsView { pool, ..self }
    }

    /// The state after taking a closure number.
    pub open spec fn after_reserved(self) -> SlotsView {
        SlotsView { closures: self.closures.push(None), ..self }
    }

    /// The state after filling a closure number.
    pub open spec fn with_closure(self, idx: int, func: FuncView) -> SlotsView {
        SlotsView { closures: self.closures.update(idx, Some(func)), ..self }
    }

    /// The state after interning a string.
    pub open spec fn after_string(self, text: Seq<char>) -> SlotsView {
        SlotsView { strings: interned(self.strings, text).0, ..self }
    }

    /// The number of a string.
    pub open spec fn string_number(self, text: Seq<char>) -> u32 {
        interned(self.strings, text).1 as u32
    }

    /// The state after interning the import of a host function.
    pub open spec fn after_import(self, name: Seq<char>, entry: EntryView) -> SlotsView {
        SlotsView { imports: intern_import(self.imports, name, entry).0, ..self }
    }

    /// The number of the import of a host function.
    pub open spec fn import_number(self, name: Seq<char>, entry: EntryView) -> u32 {
        intern_import(self.imports, name, entry).1 as u32
    }
}

impl Slots {
    /// Executable form of [`SlotsView::start`].
    pub fn new() -> (r: Slots)
        ensures
            r@ == SlotsView::start(),
    {
        let r = Slots {
            lets: 0,
            records: 0,
            pool: PoolSlots { int_lists: 0, float_lists: 0, bool_lists: 0, string_lists: 0, dicts: 0 },
            closures: Rc::new(LambdaTable::new()),
            strings: Rc::new(StringPool { strings: Vec::new() }),
            imports: Rc::new(ImportTable { imports: Vec::new() }),
        };
        assert(r@ =~= SlotsView::start());
        r
    }

    /// The same state again.
    pub fn copy(&self) -> (r: Slots)
        ensures
            r@ == self@,
    {
        Slots {
            lets: self.lets,
            records: self.records,
            pool: self.pool,
            closures: shared(&self.closures),
            strings: shared(&self.strings),
            imports: shared(&self.imports),
        }
    }

    /// Reserves one record slot.
    pub fn alloc_record_local(&self) -> (r: (u32, Slots))
        ensures
            r.0 == self.records,
            r.1@ == self@.after_record(),
    {
        let mut next = self.copy();
        next.records = slot(self.records, 1);
        (self.records, next)
    }

    /// Executable form of [`SlotsView::after`].
    pub fn reserve(&self, k: u32) -> (r: Slots)
        ensures
            r@ == self@.after(k as int),
    {
        let mut next = self.copy();
        next.lets = slot(self.lets, k);
        next
    }

    /// Executable form of [`SlotsView::with_pool`].
    pub fn repooled(&self, pool: PoolSlots) -> (r: Slots)
        ensures
            r@ == self@.with_pool(pool),
    {
        let mut next = self.copy();
        next.pool = pool;
        next
    }

    /// Takes the next closure number. It is taken before the body is lowered, so
    /// that the closures in the body come behind it.
    pub fn reserve_lambda_slot(&self) -> (r: (u32, Slots))
        ensures
            r.0 == self@.closures.len() as u32,
            r.1@ == self@.after_reserved(),
    {
        let mut closures = self.closures.copy();
        let idx: u32 = closures.reserve_lambda_slot();
        let mut next = self.copy();
        next.closures = Rc::new(closures);
        (idx, next)
    }

    /// Fills a closure number that was taken.
    pub fn set_lambda_slot(&self, idx: u32, func: Func) -> (r: Slots)
        requires
            idx < self@.closures.len(),
        ensures
            r@ == self@.with_closure(idx as int, func@),
    {
        let mut closures = self.closures.copy();
        closures.set_lambda_slot(idx, func);
        let mut next = self.copy();
        next.closures = Rc::new(closures);
        next
    }

    /// Interns a string: its number, and the state behind it.
    pub fn intern(&self, text: &str) -> (r: (u32, Slots))
        ensures
            r.0 == self@.string_number(text@),
            r.1@ == self@.after_string(text@),
    {
        match self.strings.find(text) {
            Some(i) => (i as u32, self.copy()),
            None => {
                let mut strings = self.strings.copy();
                let i: usize = strings.strings.len();
                strings.intern(text);
                let mut next = self.copy();
                next.strings = Rc::new(strings);
                (i as u32, next)
            },
        }
    }

    /// Interns the import of a host function: its number, and the state behind
    /// it.
    pub fn intern_import(&self, name: &str, entry: &HostFnEntry) -> (r: (u32, Slots))
        ensures
            r.0 == self@.import_number(name@, entry@),
            r.1@ == self@.after_import(name@, entry@),
    {
        match self.imports.find(name) {
            Some(i) => (i as u32, self.copy()),
            None => {
                let mut imports = self.imports.copy();
                let i: usize = imports.imports.len();
                imports.intern(name, entry);
                let mut next = self.copy();
                next.imports = Rc::new(imports);
                (i as u32, next)
            },
        }
    }
}

/// An instruction stream together with the type of the value it leaves on the
/// operand stack, if any, and the slot counters behind it.
#[derive(Debug, PartialEq, Eq)]
pub struct Fragment {
    pub ops: Vec<TaggedOp>,
    pub ty: Option<IrType>,
    pub slots: Slots,
}

/// The mathematical value of a [`Fragment`].
pub ghost struct FragmentView {
    pub ops: Seq<TaggedOpView>,
    pub ty: Option<IrType>,
    pub slots: SlotsView,
}

impl View for Fragment {
    type V = FragmentView;

    open spec fn view(&self) -> FragmentView {
        FragmentView { ops: ops_view(self.ops@), ty: self.ty, slots: self.slots@ }
    }
}

/// The mathematical value of a lowering result.
pub open spec fn outcome(r: Result<Fragment, LoweringError>) -> Result<FragmentView, ErrorView> {
    match r {
        Ok(f) => Ok(f@),
        Err(e) => Err(e@),
    }
}

/// The value behind an optional reference to a type.
pub open spec fn expected_value(expected: Option<&TypeRepr>) -> Option<TypeRepr> {
    match expected {
        Some(t) => Some(*t),
        None => None,
    }
}

/// How an emitter obtains the lowering of the expressions it contains. Each
/// method answers as a function of its arguments.
pub trait SubLowering {
    /// The lowering of an expression.
    spec fn lowered(&self, node: Node, scope: Scope<'_>, at: SlotsView) -> Result<
        FragmentView,
        ErrorView,
    >;

    /// Lowers an expression.
    fn lower_node(&self, node: &Node, scope: &Scope<'_>, at: &Slots) -> (r: Result<
        Fragment,
        LoweringError,
    >)
        ensures
            outcome(r) == self.lowered(*node, *scope, at@),
    ;

    /// The lowering of a closure literal to a first-class value of the given
    /// signature.
    spec fn closure_lowered(
        &self,
        node: Node,
        param_tys: Seq<IrType>,
        ret_ty: IrType,
        scope: Scope<'_>,
        at: SlotsView,
    ) -> Result<FragmentView, ErrorView>;

    /// Lowers a closure literal. A body that does not produce `ret_ty` is
    /// reported as [`LoweringError::StdlibArgTypeMismatch`].
    fn lower_closure(
        &self,
        node: &Node,
        param_tys: &Vec<IrType>,
        ret_ty: IrType,
        scope: &Scope<'_>,
        at: &Slots,
    ) -> (r: Result<Fragment, LoweringError>)
        ensures
            outcome(r) == self.closure_lowered(*node, param_tys@, ret_ty, *scope, at@),
    ;

    /// The lowering of the closure `(name) => body` to a first-class value of
    /// the given signature; the body is lowered as a value of `expected` where
    /// that is given.
    spec fn unary_lowered(
        &self,
        name: Seq<char>,
        body: Node,
        param_tys: Seq<IrType>,
        ret_ty: IrType,
        expected: Option<TypeRepr>,
        scope: Scope<'_>,
        at: SlotsView,
    ) -> Result<FragmentView, ErrorView>;

    /// Lowers the closure `(name) => body`. A body that does not produce
    /// `ret_ty` is reported as [`LoweringError::StdlibArgTypeMismatch`].
    fn lower_unary(
        &self,
        name: &String,
        body: &Node,
        param_tys: &Vec<IrType>,
        ret_ty: IrType,
        expected: Option<&TypeRepr>,
        scope: &Scope<'_>,
        at: &Slots,
    ) -> (r: Result<Fragment, LoweringError>)
        ensures
            outcome(r) == self.unary_lowered(
                name@,
                *body,
                param_tys@,
                ret_ty,
                expected_value(expected),
                *scope,
                at@,
            ),
    ;

    /// Whether a closure body uses the named parameter as an integer list.
    spec fn list_use(&self, name: Seq<char>, body: Expr) -> bool;

    /// Executable form of [`SubLowering::list_use`].
    fn closure_param_used_as_list_int(&self, name: &String, body: &Expr) -> (r: bool)
        ensures
            r == self.list_use(name@, *body),
    ;
}

/// `LetGet` as a view.
pub open spec fn let_get(idx: u32, ty: IrType, range: TokenRange) -> TaggedOpView {
    sop(SimpleOp::LetGet { idx, ty }, range)
}

/// `LetSet` as a view.
pub open spec fn let_set(idx: u32, ty: IrType, range: TokenRange) -> TaggedOpView {
    sop(SimpleOp::LetSet { idx, ty }, range)
}

/// Appends a `LetGet`.
pub fn emit_get(out: &mut Vec<TaggedOp>, idx: u32, ty: IrType, range: TokenRange)
    ensures
        ops_view(final(out)@) == ops_view(old(out)@).push(let_get(idx, ty, range)),
{
    emit_simple(out, SimpleOp::LetGet { idx, ty }, range);
}

/// Appends a `LetSet`.
pub fn emit_set(out: &mut Vec<TaggedOp>, idx: u32, ty: IrType, range: TokenRange)
    ensures
        ops_view(final(out)@) == ops_view(old(out)@).push(let_set(idx, ty, range)),
{
    emit_simple(out, SimpleOp::LetSet { idx, ty }, range);
}

/// An outcome that must leave an integer.
pub open spec fn int_top(r: Result<FragmentView, ErrorView>, range: TokenRange) -> Result<
    FragmentView,
    ErrorView,
> {
    match r {
        Err(e) => Err(e),
        Ok(f) => if f.ty == Some(IrType::I64) {
            Ok(f)
        } else {
            Err(ErrorView::ExpectedInt { got: f.ty, range })
        },
    }
}

/// Lowers an expression that must leave an integer.
pub fn lower_int<L: SubLowering>(
    low: &L,
    node: &Node,
    range: TokenRange,
    scope: &Scope<'_>,
    at: &Slots,
) -> (r: Result<Fragment, LoweringError>)
    ensures
        outcome(r) == int_top(low.lowered(*node, *scope, at@), range),
{
    match low.lower_node(node, scope, at) {
        Err(e) => Err(e),
        Ok(f) => match f.ty {
            Some(IrType::I64) => Ok(f),
            got => Err(LoweringError::ExpectedInt { got, range }),
        },
    }
}

/// An outcome that must leave a value; `kind` is the message when it does not.
pub open spec fn valued(
    r: Result<FragmentView, ErrorView>,
    kind: Seq<char>,
    range: TokenRange,
) -> Result<FragmentView, ErrorView> {
    match r {
        Err(e) => Err(e),
        Ok(f) => if f.ty is Some {
            Ok(f)
        } else {
            Err(ErrorView::UnsupportedExpr { kind, range })
        },
    }
}

/// Lowers an expression that must leave a value.
pub fn lower_valued<L: SubLowering>(
    low: &L,
    node: &Node,
    kind: &str,
    scope: &Scope<'_>,
    at: &Slots,
) -> (r: Result<(Fragment, IrType), LoweringError>)
    ensures
        match r {
            Ok((f, ty)) => valued(low.lowered(*node, *scope, at@), kind@, node.range) == Ok::<
                FragmentView,
                ErrorView,
            >(f@) && f.ty == Some(ty),
            Err(e) => valued(low.lowered(*node, *scope, at@), kind@, node.range) == Err::<
                FragmentView,
                ErrorView,
            >(e@),
        },
{
    match low.lower_node(node, scope, at) {
        Err(e) => Err(e),
        Ok(f) => match f.ty {
            Some(ty) => Ok((f, ty)),
            None => Err(unsupported(kind, node.range)),
        },
    }
}

/// The lowering of expressions that need no context: scalar and string
/// literals, and names bound in the let scope.
pub open spec fn leaf_lowered(node: Node, scope: Scope<'_>, at: SlotsView) -> Result<
    FragmentView,
    ErrorView,
> {
    let one = |op: SimpleOp, ty: IrType|
        Ok::<FragmentView, ErrorView>(
            FragmentView { ops: seq![sop(op, node.range)], ty: Some(ty), slots: at },
        );
    match *node.expr {
        Expr::Bool(b) => one(SimpleOp::ConstBool(b), IrType::Bool),
        Expr::Int(v) => one(SimpleOp::ConstI64(v), IrType::I64),
        Expr::Float(bits) => one(SimpleOp::ConstF64(bits), IrType::F64),
        Expr::String(s) => Ok(string_value(s@, node.range, at)),
        Expr::Variable(path) => if path@.len() == 1 && path@[0] is String {
            match scope.find(path@[0]->String_0@) {
                Some(b) => one(binding_read(b).0, binding_read(b).1),
                None => Err(
                    ErrorView::UnresolvedVariable {
                        name: path@[0]->String_0@,
                        range: node.range,
                    },
                ),
            }
        } else {
            Err(ErrorView::UnsupportedExpr { kind: "leaf expression"@, range: node.range })
        },
        _ => Err(ErrorView::UnsupportedExpr { kind: "leaf expression"@, range: node.range }),
    }
}

/// A string literal, interned.
pub open spec fn string_value(text: Seq<char>, range: TokenRange, at: SlotsView) -> FragmentView {
    FragmentView {
        ops: seq![
            TaggedOpView {
                op: OpView::ConstString { idx: at.string_number(text), value: text },
                range,
            },
        ],
        ty: Some(IrType::String),
        slots: at.after_string(text),
    }
}

/// Lowers a string literal.
pub fn lower_string(text: &String, range: TokenRange, at: &Slots) -> (f: Fragment)
    ensures
        f@ == string_value(text@, range, at@),
{
    let (idx, slots) = at.intern(text.as_str());
    let mut ops: Vec<TaggedOp> = Vec::new();
    emit(&mut ops, Op::ConstString { idx, value: text.clone() }, range);
    let f = Fragment { ops, ty: Some(IrType::String), slots };
    assert(f@.ops =~= string_value(text@, range, at@).ops);
    f
}

/// Lowers leaf expressions only.
#[derive(Clone, Copy, Debug, PartialEq, Eq, Structural)]
pub struct LeafLowering;

/// A fragment of a single simple instruction.
pub fn one_op(op: SimpleOp, ty: IrType, range: TokenRange, at: &Slots) -> (f: Fragment)
    ensures
        f@ == (FragmentView { ops: seq![sop(op, range)], ty: Some(ty), slots: at@ }),
{
    let mut ops: Vec<TaggedOp> = Vec::new();
    emit_simple(&mut ops, op, range);
    assert(ops_view(ops@) =~= seq![sop(op, range)]);
    Fragment { ops, ty: Some(ty), slots: at.copy() }
}

impl SubLowering for LeafLowering {
    open spec fn lowered(&self, node: Node, scope: Scope<'_>, at: SlotsView) -> Result<
        FragmentView,
        ErrorView,
    > {
        leaf_lowered(node, scope, at)
    }

    fn lower_node(&self, node: &Node, scope: &Scope<'_>, at: &Slots) -> (r: Result<
        Fragment,
        LoweringError,
    >) {
        match &*node.expr {
            Expr::Bool(b) => Ok(one_op(SimpleOp::ConstBool(*b), IrType::Bool, node.range, at)),
            Expr::Int(v) => Ok(one_op(SimpleOp::ConstI64(*v), IrType::I64, node.range, at)),
            Expr::Float(bits) => Ok(
                one_op(SimpleOp::ConstF64(*bits), IrType::F64, node.range, at),
            ),
            Expr::String(s) => Ok(lower_string(s, node.range, at)),
            Expr::Variable(path) => if path.len() == 1 {
                match &path[0] {
                    TokenKey::String(name, _, _) => match scope.lookup(name) {
                        Some(b) => {
                            let (op, ty) = read_binding(b);
                            Ok(one_op(op, ty, node.range, at))
                        },
                        None => Err(
                            LoweringError::UnresolvedVariable {
                                name: name.clone(),
                                range: node.range,
                            },
                        ),
                    },
                    _ => Err(unsupported("leaf expression", node.range)),
                }
            } else {
                Err(unsupported("leaf expression", node.range))
            },
            _ => Err(unsupported("leaf expression", node.range)),
        }
    }

    open spec fn closure_lowered(
        &self,
        node: Node,
        param_tys: Seq<IrType>,
        ret_ty: IrType,
        scope: Scope<'_>,
        at: SlotsView,
    ) -> Result<FragmentView, ErrorView> {
        Err(ErrorView::UnsupportedExpr { kind: "leaf expression"@, range: node.range })
    }

    fn lower_closure(
        &self,
        node: &Node,
        param_tys: &Vec<IrType>,
        ret_ty: IrType,
        scope: &Scope<'_>,
        at: &Slots,
    ) -> (r: Result<Fragment, LoweringError>) {
        Err(unsupported("leaf expression", node.range))
    }

    open spec fn unary_lowered(
        &self,
        name: Seq<char>,
        body: Node,
        param_tys: Seq<IrType>,
        ret_ty: IrType,
        expected: Option<TypeRepr>,
        scope: Scope<'_>,
        at: SlotsView,
    ) -> Result<FragmentView, ErrorView> {
        Err(ErrorView::UnsupportedExpr { kind: "leaf expression"@, range: body.range })
    }

    fn lower_unary(
        &self,
        name: &String,
        body: &Node,
        param_tys: &Vec<IrType>,
        ret_ty: IrType,
        expected: Option<&TypeRepr>,
        scope: &Scope<'_>,
        at: &Slots,
    ) -> (r: Result<Fragment, LoweringError>) {
        Err(unsupported("leaf expression", body.range))
    }

    open spec fn list_use(&self, name: Seq<char>, body: Expr) -> bool {
        false
    }

    fn closure_param_used_as_list_int(&self, name: &String, body: &Expr) -> (r: bool) {
        false
    }
}

/// The mathematical value of the result of a lowering that may not apply.
pub open spec fn maybe_outcome(r: Result<Option<Fragment>, LoweringError>) -> Result<
    Option<FragmentView>,
    ErrorView,
> {
    match r {
        Ok(Some(f)) => Ok(Some(f@)),
        Ok(None) => Ok(None),
        Err(e) => Err(e@),
    }
}

/// A lowering that applied.
pub open spec fn fired(r: Result<FragmentView, ErrorView>) -> Result<
    Option<FragmentView>,
    ErrorView,
> {
    match r {
        Ok(f) => Ok(Some(f)),
        Err(e) => Err(e),
    }
}

/// Executable form of [`fired`].
pub fn applied(r: Result<Fragment, LoweringError>) -> (m: Result<Option<Fragment>, LoweringError>)
    ensures
        maybe_outcome(m) == fired(outcome(r)),
{
    match r {
        Ok(f) => Ok(Some(f)),
        Err(e) => Err(e),
    }
}

} // verus!

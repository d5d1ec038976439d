//! Modules of functions, and the closure table that refers to them.

use std::rc::Rc;

use vstd::prelude::*;

use crate::ast::TokenRange;
use crate::error::{ErrorView, LoweringError};
use crate::fragment::shared;
use crate::ir::{copy_ops, copy_types, ops_view, IrType, TaggedOp, TaggedOpView};
use crate::native_import::NativeImport;
use crate::text::{decimal, decimal_chars, join3};
use crate::types::Schema;

verus! {

/// One function.
#[derive(Debug, PartialEq, Eq)]
pub struct Func {
    pub name: String,
    pub params: Vec<IrType>,
    pub ret: IrType,
    pub body: Vec<TaggedOp>,
    pub range: TokenRange,
}

/// The mathematical value of a [`Func`].
pub ghost struct FuncView {
    pub name: Seq<char>,
    pub params: Seq<IrType>,
    pub ret: IrType,
    pub body: Seq<TaggedOpView>,
    pub range: TokenRange,
}

impl View for Func {
    type V = FuncView;

    open spec fn view(&self) -> FuncView {
        FuncView {
            name: self.name@,
            params: self.params@,
            ret: self.ret,
            body: ops_view(self.body@),
            range: self.range,
        }
    }
}

/// The functions of a module, its native imports, which function is the entry,
/// and which function each closure number stands for.
#[derive(Debug, PartialEq, Eq)]
pub struct Module {
    pub imports: Vec<NativeImport>,
    pub funcs: Vec<Func>,
    pub entry_func_index: Option<usize>,
    pub closure_table: Vec<u32>,
}

/// A lowered entry module, and the record types of its parameters and of what
/// it returns.
#[derive(Debug, PartialEq, Eq)]
pub struct LoweredEntry {
    pub module: Module,
    pub main_schema: Schema,
    pub return_schema: Schema,
}

/// The mathematical value of functions.
pub open spec fn funcs_view(funcs: Seq<Func>) -> Seq<FuncView> {
    Seq::new(funcs.len(), |i: int| funcs[i]@)
}

/// A copy of a function.
pub fn copy_func(func: &Func) -> (r: Func)
    ensures
        r@ == func@,
{
    Func {
        name: func.name.clone(),
        params: copy_types(&func.params),
        ret: func.ret,
        body: copy_ops(&func.body),
        range: func.range,
    }
}

/// The closure functions of a module by number; one that has been reserved is
/// filled once its body has been lowered.
#[derive(Debug, PartialEq, Eq)]
pub struct LambdaTable {
    pub slots: Vec<Option<Rc<Func>>>,
}

/// The mathematical value of a closure number.
pub open spec fn slot_view(slot: Option<Rc<Func>>) -> Option<FuncView> {
    match slot {
        Some(f) => Some((*f)@),
        None => None,
    }
}

impl View for LambdaTable {
    type V = Seq<Option<FuncView>>;

    open spec fn view(&self) -> Seq<Option<FuncView>> {
        Seq::new(self.slots@.len(), |i: int| slot_view(self.slots@[i]))
    }
}

/// The least index at or behind `from` of a number that was not filled.
pub open spec fn first_unfilled(slots: Seq<Option<FuncView>>, from: int) -> Option<int>
    decreases slots.len() - from,
{
    if from < 0 || from >= slots.len() {
        None
    } else if slots[from] is None {
        Some(from)
    } else {
        first_unfilled(slots, from + 1)
    }
}

/// The error for a number that was not filled.
pub open spec fn unfilled_error(i: int, range: TokenRange) -> ErrorView {
    ErrorView::UnsupportedExpr {
        kind: "closure-table slot "@ + decimal_chars(i as nat) + " reserved but never filled"@,
        range,
    }
}

impl LambdaTable {
    /// The table without closures.
    pub fn new() -> (r: Self)
        ensures
            r@ == Seq::<Option<FuncView>>::empty(),
    {
        let r = LambdaTable { slots: Vec::new() };
        assert(r@ =~= Seq::empty());
        r
    }

    /// The same functions again.
    pub fn copy(&self) -> (r: LambdaTable)
        ensures
            r@ == self@,
    {
        let mut slots: Vec<Option<Rc<Func>>> = Vec::new();
        let mut i: usize = 0;
        while i < self.slots.len()
            invariant
                i <= self.slots.len(),
                slots@ =~= self.slots@.take(i as int),
            decreases self.slots.len() - i,
        {
            let slot: Option<Rc<Func>> = match &self.slots[i] {
                Some(f) => Some(shared(f)),
                None => None,
            };
            slots.push(slot);
            i += 1;
        }
        LambdaTable { slots }
    }

    /// Takes the next number.
    pub fn reserve_lambda_slot(&mut self) -> (idx: u32)
        ensures
            idx == old(self)@.len() as u32,
            final(self)@ == old(self)@.push(None),
    {
        let idx: u32 = self.slots.len() as u32;
        self.slots.push(None);
        assert(self@ =~= old(self)@.push(None));
        idx
    }

    /// Fills a number that was taken.
    pub fn set_lambda_slot(&mut self, idx: u32, func: Func)
        requires
            idx < old(self)@.len(),
        ensures
            final(self)@ == old(self)@.update(idx as int, Some(func@)),
    {
        self.slots.set(idx as usize, Some(Rc::new(func)));
        assert(self@ =~= old(self)@.update(idx as int, Some(func@)));
    }

    /// The closure functions in order, or the first number that was not filled.
    pub fn into_funcs(&self, range: TokenRange) -> (r: Result<Vec<Func>, LoweringError>)
        ensures
            match (r, first_unfilled(self@, 0)) {
                (Ok(funcs), None) => filled(self@, funcs_view(funcs@)),
                (Err(e), Some(i)) => e@ == unfilled_error(i, range),
                _ => false,
            },
    {
        let mut out: Vec<Func> = Vec::new();
        let mut i: usize = 0;
        while i < self.slots.len()
            invariant
                i <= self.slots@.len(),
                out@.len() == i,
                forall|k: int| 0 <= k < i ==> self@[k] == Some((#[trigger] out@[k])@),
                first_unfilled(self@, 0) == first_unfilled(self@, i as int),
            decreases self.slots@.len() - i,
        {
            assert(self@[i as int] == slot_view(self.slots@[i as int]));
            match &self.slots[i] {
                Some(f) => {
                    out.push(copy_func(f));
                },
                None => {
                    return Err(
                        LoweringError::UnsupportedExpr {
                            kind: join3(
                                "closure-table slot ",
                                decimal(i).as_str(),
                                " reserved but never filled",
                            ),
                            range,
                        },
                    );
                },
            }
            i += 1;
        }
        assert forall|k: int| 0 <= k < out@.len() implies self@[k] == Some(
            #[trigger] funcs_view(out@)[k],
        ) by {
            assert(self@[k] == Some(out@[k]@));
        }
        Ok(out)
    }
}

/// All numbers are filled, with these functions.
pub open spec fn filled(slots: Seq<Option<FuncView>>, funcs: Seq<FuncView>) -> bool {
    &&& funcs.len() == slots.len()
    &&& forall|i: int| 0 <= i < funcs.len() ==> slots[i] == Some(#[trigger] funcs[i])
}

/// The module of the methods, the entry function, and the closures behind it.
pub open spec fn assembled(
    module: Module,
    methods: Seq<Func>,
    entry: Func,
    lambdas: Seq<Func>,
    imports: Seq<NativeImport>,
) -> bool {
    &&& module.imports@ == imports
    &&& module.funcs@ == methods.push(entry) + lambdas
    &&& module.entry_func_index == Some(methods.len() as usize)
    &&& module.closure_table@ == Seq::new(
        lambdas.len(),
        |i: int| (methods.len() + 1 + i) as u32,
    )
}

/// Assembles a module.
pub fn assemble_module(
    methods: Vec<Func>,
    entry: Func,
    lambdas: Vec<Func>,
    imports: Vec<NativeImport>,
) -> (r: Module)
    ensures
        assembled(r, methods@, entry, lambdas@, imports@),
{
    let entry_index: usize = methods.len();
    let mut funcs: Vec<Func> = methods;
    funcs.push(entry);
    let base: usize = funcs.len();
    let mut tail: Vec<Func> = lambdas;
    funcs.append(&mut tail);
    let mut closure_table: Vec<u32> = Vec::new();
    let mut i: usize = base;
    while i < funcs.len()
        invariant
            base <= i <= funcs@.len(),
            closure_table@ =~= Seq::new((i - base) as nat, |k: int| (base + k) as u32),
        decreases funcs@.len() - i,
    {
        closure_table.push(i as u32);
        i += 1;
    }
    assert(closure_table@ =~= Seq::new(lambdas@.len(), |k: int| (methods@.len() + 1 + k) as u32));
    Module { imports, funcs, entry_func_index: Some(entry_index), closure_table }
}

/// The entry index refers to the entry function, and each closure number to
/// the function it was filled with.
pub proof fn law_tables_refer_to_their_functions(
    module: Module,
    methods: Seq<Func>,
    entry: Func,
    lambdas: Seq<Func>,
    imports: Seq<NativeImport>,
    i: int,
)
    requires
        assembled(module, methods, entry, lambdas, imports),
        methods.len() + 1 + lambdas.len() <= u32::MAX,
        0 <= i < lambdas.len(),
    ensures
        module.funcs@[module.entry_func_index->0 as int] == entry,
        module.closure_table@.len() == lambdas.len(),
        module.funcs@[module.closure_table@[i] as int] == lambdas[i],
{
}

/// Numbers that are reserved and then filled give their functions back in the
/// order in which they were reserved; filling one leaves the others as they
/// are.
pub proof fn law_filled_number_keeps_its_function(
    slots: Seq<Option<FuncView>>,
    idx: int,
    func: FuncView,
    funcs: Seq<FuncView>,
)
    requires
        0 <= idx < slots.len(),
        filled(slots.update(idx, Some(func)), funcs),
    ensures
        funcs[idx] == func,
        forall|k: int|
            0 <= k < slots.len() && k != idx ==> slots[k] == Some(#[trigger] funcs[k]),
{
    let after = slots.update(idx, Some(func));
    assert(after[idx] == Some(funcs[idx]));
    assert forall|k: int| 0 <= k < slots.len() && k != idx implies slots[k] == Some(
        #[trigger] funcs[k],
    ) by {
        assert(after[k] == Some(funcs[k]));
    }
}

} // verus!

//! List literals: interned constants, spreads, and computed elements.

use vstd::prelude::*;

use crate::ast::{expr_kind, expr_kind_name, Expr, Node, TokenRange};
use crate::error::{unsupported, ErrorView, LoweringError};
use crate::float_bits::{double_bits, int_to_double_bits};
use crate::fragment::{
    outcome, slot, slot_at, valued, Fragment, FragmentView, PoolSlots, Scope, Slots, SlotsView,
    SubLowering,
};
use crate::ir::{emit, op_view, ops_view, texts, IrType, Op, OpView, TaggedOp, TaggedOpView};
use crate::materialize::{
    emit_list_float_literal_materialize, emit_list_int_literal_materialize, is_plain_literal,
    list_has_computed_element, literal_fits, literal_list, probe_expr_ir_ty, LiteralKind,
};
use crate::text::join3;

verus! {

/// The element type of an interned list literal.
#[derive(Clone, Copy, Debug, PartialEq, Eq, Structural)]
pub enum ConstListKind {
    Int,
    Float,
    Bool,
    String,
}

impl ConstListKind {
    /// The name of the element type.
    pub open spec fn text(self) -> Seq<char> {
        match self {
            ConstListKind::Int => "Int"@,
            ConstListKind::Float => "Float"@,
            ConstListKind::Bool => "Bool"@,
            ConstListKind::String => "String"@,
        }
    }

    /// Executable form of [`ConstListKind::text`].
    pub fn name(self) -> (r: &'static str)
        ensures
            r@ == self.text(),
    {
        match self {
            ConstListKind::Int => "Int",
            ConstListKind::Float => "Float",
            ConstListKind::Bool => "Bool",
            ConstListKind::String => "String",
        }
    }

    /// The type of the list.
    pub open spec fn list_ty(self) -> IrType {
        match self {
            ConstListKind::Int => IrType::ListInt,
            ConstListKind::Float => IrType::ListFloat,
            ConstListKind::Bool => IrType::ListBool,
            ConstListKind::String => IrType::ListString,
        }
    }

    /// The literal may stand in a list of this kind. Integers are promoted in
    /// a list of floats.
    pub open spec fn admits(self, expr: Expr) -> bool {
        match self {
            ConstListKind::Int => expr is Int,
            ConstListKind::Float => expr is Float || expr is Int,
            ConstListKind::Bool => expr is Bool,
            ConstListKind::String => expr is String,
        }
    }
}

/// The kind of list that a first element of the form begins.
pub open spec fn const_list_kind(expr: Expr) -> Option<ConstListKind> {
    match expr {
        Expr::Int(_) => Some(ConstListKind::Int),
        Expr::Float(_) => Some(ConstListKind::Float),
        Expr::Bool(_) => Some(ConstListKind::Bool),
        Expr::String(_) => Some(ConstListKind::String),
        _ => None,
    }
}

fn find_const_list_kind(expr: &Expr) -> (r: Option<ConstListKind>)
    ensures
        r == const_list_kind(*expr),
{
    match expr {
        Expr::Int(_) => Some(ConstListKind::Int),
        Expr::Float(_) => Some(ConstListKind::Float),
        Expr::Bool(_) => Some(ConstListKind::Bool),
        Expr::String(_) => Some(ConstListKind::String),
        _ => None,
    }
}

/// The least index at or behind `from` of an element that the list does not
/// admit.
pub open spec fn odd_element(kind: ConstListKind, items: Seq<Node>, from: int) -> Option<int>
    decreases items.len() - from,
{
    if from < 0 || from >= items.len() {
        None
    } else if kind.admits(*items[from].expr) {
        odd_element(kind, items, from + 1)
    } else {
        Some(from)
    }
}

/// The error for an element that the list does not admit.
pub open spec fn odd_element_error(kind: ConstListKind, item: Node) -> ErrorView {
    ErrorView::UnsupportedExpr {
        kind: "List<"@ + kind.text() + ">(non-"@ + kind.text() + " element `"@ + expr_kind(
            *item.expr,
        ) + "`)"@,
        range: item.range,
    }
}

fn element_error(kind: ConstListKind, item: &Node) -> (e: LoweringError)
    ensures
        e@ == odd_element_error(kind, *item),
{
    let head: String = join3("List<", kind.name(), ">(non-");
    let middle: String = join3(head.as_str(), kind.name(), " element `");
    LoweringError::UnsupportedExpr {
        kind: join3(middle.as_str(), expr_kind_name(&*item.expr), "`)"),
        range: item.range,
    }
}

/// The integers of a list.
pub open spec fn int_elements(items: Seq<Node>) -> Seq<i64> {
    Seq::new(items.len(), |i: int| items[i].expr->Int_0)
}

/// The bits of a float literal, or of the float closest to an integer literal.
pub open spec fn float_element(expr: Expr) -> u64 {
    match expr {
        Expr::Int(v) => double_bits(v),
        _ => expr->Float_0,
    }
}

/// The float bits of a list.
pub open spec fn float_elements(items: Seq<Node>) -> Seq<u64> {
    Seq::new(items.len(), |i: int| float_element(*items[i].expr))
}

/// The booleans of a list.
pub open spec fn bool_elements(items: Seq<Node>) -> Seq<bool> {
    Seq::new(items.len(), |i: int| items[i].expr->Bool_0)
}

/// The strings of a list.
pub open spec fn string_elements(items: Seq<Node>) -> Seq<Seq<char>> {
    Seq::new(items.len(), |i: int| items[i].expr->String_0@)
}

fn collect_ints(items: &Vec<Node>) -> (r: Result<Vec<i64>, LoweringError>)
    ensures
        match (r, odd_element(ConstListKind::Int, items@, 0)) {
            (Ok(v), None) => v@ == int_elements(items@),
            (Err(e), Some(i)) => e@ == odd_element_error(ConstListKind::Int, items@[i]),
            _ => false,
        },
{
    let mut out: Vec<i64> = Vec::new();
    let mut i: usize = 0;
    while i < items.len()
        invariant
            i <= items@.len(),
            odd_element(ConstListKind::Int, items@, 0) == odd_element(
                ConstListKind::Int,
                items@,
                i as int,
            ),
            out@ =~= int_elements(items@.take(i as int)),
        decreases items@.len() - i,
    {
        let value: i64 = match &*items[i].expr {
            Expr::Int(v) => *v,
            _ => {
                return Err(element_error(ConstListKind::Int, &items[i]));
            },
        };
        out.push(value);
        i += 1;
    }
    assert(items@.take(i as int) =~= items@);
    Ok(out)
}

fn collect_floats(items: &Vec<Node>) -> (r: Result<Vec<u64>, LoweringError>)
    ensures
        match (r, odd_element(ConstListKind::Float, items@, 0)) {
            (Ok(v), None) => v@ == float_elements(items@),
            (Err(e), Some(i)) => e@ == odd_element_error(ConstListKind::Float, items@[i]),
            _ => false,
        },
{
    let mut out: Vec<u64> = Vec::new();
    let mut i: usize = 0;
    while i < items.len()
        invariant
            i <= items@.len(),
            odd_element(ConstListKind::Float, items@, 0) == odd_element(
                ConstListKind::Float,
                items@,
                i as int,
            ),
            out@ =~= float_elements(items@.take(i as int)),
        decreases items@.len() - i,
    {
        let value: u64 = match &*items[i].expr {
            Expr::Float(bits) => *bits,
            Expr::Int(v) => int_to_double_bits(*v),
            _ => {
                return Err(element_error(ConstListKind::Float, &items[i]));
            },
        };
        out.push(value);
        i += 1;
    }
    assert(items@.take(i as int) =~= items@);
    Ok(out)
}

fn collect_bools(items: &Vec<Node>) -> (r: Result<Vec<bool>, LoweringError>)
    ensures
        match (r, odd_element(ConstListKind::Bool, items@, 0)) {
            (Ok(v), None) => v@ == bool_elements(items@),
            (Err(e), Some(i)) => e@ == odd_element_error(ConstListKind::Bool, items@[i]),
            _ => false,
        },
{
    let mut out: Vec<bool> = Vec::new();
    let mut i: usize = 0;
    while i < items.len()
        invariant
            i <= items@.len(),
            odd_element(ConstListKind::Bool, items@, 0) == odd_element(
                ConstListKind::Bool,
                items@,
                i as int,
            ),
            out@ =~= bool_elements(items@.take(i as int)),
        decreases items@.len() - i,
    {
        let value: bool = match &*items[i].expr {
            Expr::Bool(v) => *v,
            _ => {
                return Err(element_error(ConstListKind::Bool, &items[i]));
            },
        };
        out.push(value);
        i += 1;
    }
    assert(items@.take(i as int) =~= items@);
    Ok(out)
}

fn collect_strings(items: &Vec<Node>) -> (r: Result<Vec<String>, LoweringError>)
    ensures
        match (r, odd_element(ConstListKind::String, items@, 0)) {
            (Ok(v), None) => texts(v@) == string_elements(items@),
            (Err(e), Some(i)) => e@ == odd_element_error(ConstListKind::String, items@[i]),
            _ => false,
        },
{
    let mut out: Vec<String> = Vec::new();
    let mut i: usize = 0;
    while i < items.len()
        invariant
            i <= items@.len(),
            odd_element(ConstListKind::String, items@, 0) == odd_element(
                ConstListKind::String,
                items@,
                i as int,
            ),
            texts(out@) =~= string_elements(items@.take(i as int)),
        decreases items@.len() - i,
    {
        let value: String = match &*items[i].expr {
            Expr::String(v) => v.clone(),
            _ => {
                return Err(element_error(ConstListKind::String, &items[i]));
            },
        };
        let ghost before = out@;
        out.push(value);
        assert(texts(out@) =~= texts(before).push(value@));
        i += 1;
    }
    assert(items@.take(i as int) =~= items@);
    Ok(out)
}

impl PoolSlots {
    /// The counters after one list of integers.
    pub open spec fn after_int_list(self) -> PoolSlots {
        PoolSlots { int_lists: slot_at(self.int_lists, 1), ..self }
    }

    /// Takes a number for a list of integers.
    pub fn alloc_list_int_idx(self) -> (r: (u32, PoolSlots))
        ensures
            r == (self.int_lists, self.after_int_list()),
    {
        let mut next = self;
        next.int_lists = slot(self.int_lists, 1);
        (self.int_lists, next)
    }

    /// The counters after one list of floats.
    pub open spec fn after_float_list(self) -> PoolSlots {
        PoolSlots { float_lists: slot_at(self.float_lists, 1), ..self }
    }

    /// Takes a number for a list of floats.
    pub fn alloc_list_float_idx(self) -> (r: (u32, PoolSlots))
        ensures
            r == (self.float_lists, self.after_float_list()),
    {
        let mut next = self;
        next.float_lists = slot(self.float_lists, 1);
        (self.float_lists, next)
    }

    /// The counters after one list of booleans.
    pub open spec fn after_bool_list(self) -> PoolSlots {
        PoolSlots { bool_lists: slot_at(self.bool_lists, 1), ..self }
    }

    /// Takes a number for a list of booleans.
    pub fn alloc_list_bool_idx(self) -> (r: (u32, PoolSlots))
        ensures
            r == (self.bool_lists, self.after_bool_list()),
    {
        let mut next = self;
        next.bool_lists = slot(self.bool_lists, 1);
        (self.bool_lists, next)
    }
}

/// The constant of a list whose elements are all admitted, and the pool
/// counters behind it.
pub open spec fn const_list_op(kind: ConstListKind, items: Seq<Node>, pool: PoolSlots) -> (
    OpView,
    PoolSlots,
) {
    match kind {
        ConstListKind::Int => (
            OpView::ConstListInt { idx: pool.int_lists, elements: int_elements(items) },
            pool.after_int_list(),
        ),
        ConstListKind::Float => (
            OpView::ConstListFloat { idx: pool.float_lists, elements: float_elements(items) },
            pool.after_float_list(),
        ),
        ConstListKind::Bool => (
            OpView::ConstListBool { idx: pool.bool_lists, elements: bool_elements(items) },
            pool.after_bool_list(),
        ),
        ConstListKind::String => (
            OpView::ConstListString { idx: pool.string_lists, elements: string_elements(items) },
            pool.after_string_list(),
        ),
    }
}

/// The lowering of a list of literals: one constant, whose type the first
/// element decides.
pub open spec fn const_list(items: Seq<Node>, range: TokenRange, at: SlotsView) -> Result<
    FragmentView,
    ErrorView,
> {
    match const_list_kind(*items[0].expr) {
        None => Err(
            ErrorView::UnsupportedExpr {
                kind: "List(non-literal element `"@ + expr_kind(*items[0].expr) + "`)"@,
                range: items[0].range,
            },
        ),
        Some(kind) => match odd_element(kind, items, 0) {
            Some(i) => Err(odd_element_error(kind, items[i])),
            None => {
                let (op, pool) = const_list_op(kind, items, at.pool);
                Ok(
                    FragmentView {
                        ops: seq![TaggedOpView { op, range }],
                        ty: Some(kind.list_ty()),
                        slots: at.with_pool(pool),
                    },
                )
            },
        },
    }
}

fn collect_constant(kind: ConstListKind, items: &Vec<Node>, pool: PoolSlots) -> (r: Result<
    (Op, PoolSlots),
    LoweringError,
>)
    ensures
        match (r, odd_element(kind, items@, 0)) {
            (Ok((op, next)), None) => (op_view(op), next) == const_list_op(kind, items@, pool),
            (Err(e), Some(i)) => e@ == odd_element_error(kind, items@[i]),
            _ => false,
        },
{
    match kind {
        ConstListKind::Int => match collect_ints(items) {
            Err(e) => Err(e),
            Ok(elements) => {
                let (idx, next) = pool.alloc_list_int_idx();
                Ok((Op::ConstListInt { idx, elements }, next))
            },
        },
        ConstListKind::Float => match collect_floats(items) {
            Err(e) => Err(e),
            Ok(elements) => {
                let (idx, next) = pool.alloc_list_float_idx();
                Ok((Op::ConstListFloat { idx, elements }, next))
            },
        },
        ConstListKind::Bool => match collect_bools(items) {
            Err(e) => Err(e),
            Ok(elements) => {
                let (idx, next) = pool.alloc_list_bool_idx();
                Ok((Op::ConstListBool { idx, elements }, next))
            },
        },
        ConstListKind::String => match collect_strings(items) {
            Err(e) => Err(e),
            Ok(elements) => {
                let (idx, next) = pool.alloc_list_string_idx();
                Ok((Op::ConstListString { idx, elements }, next))
            },
        },
    }
}

fn lower_const_list(items: &Vec<Node>, range: TokenRange, at: &Slots) -> (r: Result<
    Fragment,
    LoweringError,
>)
    requires
        items@.len() > 0,
    ensures
        outcome(r) == const_list(items@, range, at@),
{
    let kind: ConstListKind = match find_const_list_kind(&*items[0].expr) {
        None => {
            return Err(
                LoweringError::UnsupportedExpr {
                    kind: join3(
                        "List(non-literal element `",
                        expr_kind_name(&*items[0].expr),
                        "`)",
                    ),
                    range: items[0].range,
                },
            );
        },
        Some(k) => k,
    };
    match collect_constant(kind, items, at.pool) {
        Err(e) => Err(e),
        Ok((op, pool)) => {
            let mut out: Vec<TaggedOp> = Vec::new();
            let ghost shown = op_view(op);
            emit(&mut out, op, range);
            assert(ops_view(out@) =~= seq![TaggedOpView { op: shown, range }]);
            let ty: IrType = match kind {
                ConstListKind::Int => IrType::ListInt,
                ConstListKind::Float => IrType::ListFloat,
                ConstListKind::Bool => IrType::ListBool,
                ConstListKind::String => IrType::ListString,
            };
            Ok(Fragment { ops: out, ty: Some(ty), slots: at.repooled(pool) })
        },
    }
}

/// The lowering of a list that is built at run time, of the type of its first
/// element. `word` says in a diagnostic why the list is no constant.
pub open spec fn computed_list<L: SubLowering>(
    low: L,
    word: Seq<char>,
    items: Seq<Node>,
    range: TokenRange,
    scope: Scope<'_>,
    at: SlotsView,
) -> Result<FragmentView, ErrorView> {
    match valued(
        low.lowered(items[0], scope, at),
        "List(computed element produced no value during type probe)"@,
        items[0].range,
    ) {
        Err(e) => Err(e),
        Ok(f) => match f.ty->0 {
            IrType::F64 => literal_list(low, LiteralKind::Float, items, range, scope, at),
            IrType::I64 => literal_list(low, LiteralKind::Int, items, range, scope, at),
            other => Err(
                ErrorView::UnsupportedExpr {
                    kind: "List("@ + word + " element of type "@ + other.tag()
                        + " — only Float / Int "@ + word
                        + " list literals are materialised in the AOT envelope)"@,
                    range,
                },
            ),
        },
    }
}

fn lower_computed_list<L: SubLowering>(
    word: &str,
    items: &Vec<Node>,
    range: TokenRange,
    scope: &Scope<'_>,
    at: &Slots,
    low: &L,
) -> (r: Result<Fragment, LoweringError>)
    requires
        items@.len() > 0,
        literal_fits(items@.len()),
    ensures
        outcome(r) == computed_list(*low, word@, items@, range, *scope, at@),
{
    match probe_expr_ir_ty(&items[0], scope, at, low) {
        Err(e) => Err(e),
        Ok(IrType::F64) => emit_list_float_literal_materialize(items, range, scope, at, low),
        Ok(IrType::I64) => emit_list_int_literal_materialize(items, range, scope, at, low),
        Ok(other) => {
            let head: String = join3("List(", word, " element of type ");
            let middle: String = join3(head.as_str(), other.name(), " — only Float / Int ");
            Err(
                LoweringError::UnsupportedExpr {
                    kind: join3(
                        middle.as_str(),
                        word,
                        " list literals are materialised in the AOT envelope)",
                    ),
                    range,
                },
            )
        },
    }
}

/// A list with spreads after they have been resolved: lowered as a whole, or
/// flattened to its elements.
#[derive(Debug, PartialEq, Eq)]
pub enum SpreadList {
    Done(Fragment),
    Flat(Vec<Node>),
}

/// The mathematical value of a [`SpreadList`].
pub ghost enum SpreadView {
    Done(FragmentView),
    Flat(Seq<Node>),
}

/// The mathematical value of the resolution of spreads.
pub open spec fn spread_outcome(r: Option<Result<SpreadList, LoweringError>>) -> Option<
    Result<SpreadView, ErrorView>,
> {
    match r {
        None => None,
        Some(Err(e)) => Some(Err(e@)),
        Some(Ok(SpreadList::Done(f))) => Some(Ok(SpreadView::Done(f@))),
        Some(Ok(SpreadList::Flat(items))) => Some(Ok(SpreadView::Flat(items@))),
    }
}

/// Some element of the list is not a plain literal.
pub open spec fn has_computed(items: Seq<Node>) -> bool {
    exists|i: int| 0 <= i < items.len() && !is_plain_literal(*(#[trigger] items[i]).expr)
}

/// The lowering of a list literal. `spread` is what became of its spreads, if
/// it has any.
pub open spec fn list_lowered<L: SubLowering>(
    low: L,
    items: Seq<Node>,
    spread: Option<Result<SpreadView, ErrorView>>,
    range: TokenRange,
    scope: Scope<'_>,
    at: SlotsView,
) -> Result<FragmentView, ErrorView> {
    if items.len() == 0 {
        Err(ErrorView::UnsupportedExpr { kind: "List(empty literal)"@, range })
    } else {
        match spread {
            Some(Err(e)) => Err(e),
            Some(Ok(SpreadView::Done(f))) => Ok(f),
            Some(Ok(SpreadView::Flat(flat))) => if flat.len() == 0 {
                Err(
                    ErrorView::UnsupportedExpr {
                        kind:
                            "List(spread flattened to empty — element type cannot be inferred)"@,
                        range,
                    },
                )
            } else {
                computed_list(low, "spread"@, flat, range, scope, at)
            },
            None => if has_computed(items) {
                computed_list(low, "computed"@, items, range, scope, at)
            } else {
                const_list(items, range, at)
            },
        }
    }
}

/// Lowers a list literal.
pub fn lower_list<L: SubLowering>(
    items: &Vec<Node>,
    spread: Option<Result<SpreadList, LoweringError>>,
    range: TokenRange,
    scope: &Scope<'_>,
    at: &Slots,
    low: &L,
) -> (r: Result<Fragment, LoweringError>)
    requires
        has_computed(items@) ==> literal_fits(items@.len()),
        spread matches Some(Ok(SpreadList::Flat(flat))) ==> literal_fits(flat@.len()),
    ensures
        outcome(r) == list_lowered(*low, items@, spread_outcome(spread), range, *scope, at@),
{
    if items.len() == 0 {
        return Err(unsupported("List(empty literal)", range));
    }
    match spread {
        Some(Err(e)) => Err(e),
        Some(Ok(SpreadList::Done(f))) => Ok(f),
        Some(Ok(SpreadList::Flat(flat))) => {
            if flat.len() == 0 {
                Err(
                    unsupported(
                        "List(spread flattened to empty — element type cannot be inferred)",
                        range,
                    ),
                )
            } else {
                lower_computed_list("spread", &flat, range, scope, at, low)
            }
        },
        None => if list_has_computed_element(items) {
            lower_computed_list("computed", items, range, scope, at, low)
        } else {
            lower_const_list(items, range, at)
        },
    }
}

/// A list of literals of one kind is one constant with one value for each
/// element, and takes one number of its pool.
pub proof fn law_const_list_is_one_constant(items: Seq<Node>, range: TokenRange, at: SlotsView)
    requires
        items.len() > 0,
        const_list_kind(*items[0].expr) is Some,
        forall|i: int|
            0 <= i < items.len() ==> const_list_kind(*items[0].expr)->0.admits(
                *(#[trigger] items[i]).expr,
            ),
    ensures
        const_list(items, range, at) is Ok,
        const_list(items, range, at)->Ok_0.ops.len() == 1,
        const_list(items, range, at)->Ok_0.slots.lets == at.lets,
        match const_list(items, range, at)->Ok_0.ops[0].op {
            OpView::ConstListInt { idx, elements } => elements.len() == items.len() && idx
                == at.pool.int_lists,
            OpView::ConstListFloat { idx, elements } => elements.len() == items.len() && idx
                == at.pool.float_lists,
            OpView::ConstListBool { idx, elements } => elements.len() == items.len() && idx
                == at.pool.bool_lists,
            OpView::ConstListString { idx, elements } => elements.len() == items.len() && idx
                == at.pool.string_lists,
            _ => false,
        },
{
    lemma_no_odd_element(const_list_kind(*items[0].expr)->0, items, 0);
}

proof fn lemma_no_odd_element(kind: ConstListKind, items: Seq<Node>, from: int)
    requires
        0 <= from,
        forall|i: int| 0 <= i < items.len() ==> kind.admits(*(#[trigger] items[i]).expr),
    ensures
        odd_element(kind, items, from) is None,
    decreases items.len() - from,
{
    if from < items.len() {
        lemma_no_odd_element(kind, items, from + 1);
    }
}

} // verus!

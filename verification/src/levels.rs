//! A lowering that nests as many levels as a counter says.

use vstd::prelude::*;

use crate::ast::{CallArg, Expr, Node, TokenKey, TokenRange};
use crate::calls::{CallLowering, SpecialCall};
use crate::depth::alike_forms;
use crate::depth_finite::law_lowering_is_what_it_gives;
use crate::error::{unsupported, ErrorView, LoweringError};
use crate::expr::{expr_fits, expr_lowered, lower_expr, ExprEnv, ExprLowering};
use crate::fragment::{outcome, Fragment, FragmentView, Scope, Slots, SlotsView, SubLowering};
use crate::ir::IrType;
use crate::list_literal::{SpreadList, SpreadView};
use crate::nested::fits;
use crate::records::{LayoutView, OffsetTable, RecordBody, RecordLowering};
use crate::types::{Schema, TypeRepr};

verus! {

/// What lowers the expressions that an expression contains, above a ground that
/// lowers everything else.
pub trait PartLowering {
    /// Lowers what is no expression that another one contains.
    type Base: ExprLowering;

    /// The ground.
    spec fn ground(&self) -> Self::Base;

    /// Executable form of [`PartLowering::ground`].
    fn base(&self) -> (b: &Self::Base)
        ensures
            *b == self.ground(),
    ;

    /// The lowering of an expression that another one contains.
    spec fn part_lowered(&self, node: Node, scope: Scope<'_>, at: SlotsView) -> Result<
        FragmentView,
        ErrorView,
    >;

    /// Lowers an expression that another one contains.
    fn lower_part(&self, node: &Node, scope: &Scope<'_>, at: &Slots) -> (r: Result<
        Fragment,
        LoweringError,
    >)
        ensures
            outcome(r) == self.part_lowered(*node, *scope, at@),
    ;
}

/// The lowering that answers for parts as given, and for the rest as its ground.
pub struct Around<P> {
    pub parts: P,
}

impl<P: PartLowering> SubLowering for Around<P> {
    open spec fn lowered(&self, node: Node, scope: Scope<'_>, at: SlotsView) -> Result<
        FragmentView,
        ErrorView,
    > {
        self.parts.part_lowered(node, scope, at)
    }

    fn lower_node(&self, node: &Node, scope: &Scope<'_>, at: &Slots) -> (r: Result<
        Fragment,
        LoweringError,
    >) {
        self.parts.lower_part(node, scope, at)
    }

    open spec fn closure_lowered(
        &self,
        node: Node,
        param_tys: Seq<IrType>,
        ret_ty: IrType,
        scope: Scope<'_>,
        at: SlotsView,
    ) -> Result<FragmentView, ErrorView> {
        self.parts.ground().closure_lowered(node, param_tys, ret_ty, scope, at)
    }

    fn lower_closure(
        &self,
        node: &Node,
        param_tys: &Vec<IrType>,
        ret_ty: IrType,
        scope: &Scope<'_>,
        at: &Slots,
    ) -> (r: Result<Fragment, LoweringError>) {
        self.parts.base().lower_closure(node, param_tys, ret_ty, scope, at)
    }

    open spec fn unary_lowered(
        &self,
        name: Seq<char>,
        body: Node,
        param_tys: Seq<IrType>,
        ret_ty: IrType,
        expected: Option<TypeRepr>,
        scope: Scope<'_>,
        at: SlotsView,
    ) -> Result<FragmentView, ErrorView> {
        self.parts.ground().unary_lowered(name, body, param_tys, ret_ty, expected, scope, at)
    }

    fn lower_unary(
        &self,
        name: &String,
        body: &Node,
        param_tys: &Vec<IrType>,
        ret_ty: IrType,
        expected: Option<&TypeRepr>,
        scope: &Scope<'_>,
        at: &Slots,
    ) -> (r: Result<Fragment, LoweringError>) {
        self.parts.base().lower_unary(name, body, param_tys, ret_ty, expected, scope, at)
    }

    open spec fn list_use(&self, name: Seq<char>, body: Expr) -> bool {
        self.parts.ground().list_use(name, body)
    }

    fn closure_param_used_as_list_int(&self, name: &String, body: &Expr) -> (r: bool) {
        self.parts.base().closure_param_used_as_list_int(name, body)
    }
}

impl<P: PartLowering> RecordLowering for Around<P> {
    open spec fn layout(&self, schema: Schema) -> Result<LayoutView, ErrorView> {
        self.parts.ground().layout(schema)
    }

    fn offsets_for(&self, schema: &Schema) -> (r: Result<OffsetTable, LoweringError>) {
        self.parts.base().offsets_for(schema)
    }

    open spec fn declared(&self, name: Seq<char>) -> bool {
        self.parts.ground().declared(name)
    }

    fn is_declared(&self, name: &String) -> (r: bool) {
        self.parts.base().is_declared(name)
    }

    open spec fn record_body(
        &self,
        kind: RecordBody,
        schema: Schema,
        value: Node,
        record: u32,
        range: TokenRange,
        scope: Scope<'_>,
        at: SlotsView,
    ) -> Result<FragmentView, ErrorView> {
        self.parts.ground().record_body(kind, schema, value, record, range, scope, at)
    }

    fn lower_record_body(
        &self,
        kind: RecordBody,
        schema: &Schema,
        value: &Node,
        record: u32,
        range: TokenRange,
        scope: &Scope<'_>,
        at: &Slots,
    ) -> (r: Result<Fragment, LoweringError>) {
        self.parts.base().lower_record_body(kind, schema, value, record, range, scope, at)
    }

    open spec fn field_value(
        &self,
        schema: Schema,
        index: int,
        value: Node,
        scope: Scope<'_>,
        at: SlotsView,
    ) -> Result<FragmentView, ErrorView> {
        self.parts.ground().field_value(schema, index, value, scope, at)
    }

    fn lower_field_value(
        &self,
        schema: &Schema,
        index: usize,
        value: &Node,
        scope: &Scope<'_>,
        at: &Slots,
    ) -> (r: Result<Fragment, LoweringError>) {
        self.parts.base().lower_field_value(schema, index, value, scope, at)
    }

    open spec fn typed_ternary(
        &self,
        expected: TypeRepr,
        value: Node,
        scope: Scope<'_>,
        at: SlotsView,
    ) -> Result<FragmentView, ErrorView> {
        self.parts.ground().typed_ternary(expected, value, scope, at)
    }

    fn lower_typed_ternary(
        &self,
        expected: &TypeRepr,
        value: &Node,
        scope: &Scope<'_>,
        at: &Slots,
    ) -> (r: Result<Fragment, LoweringError>) {
        self.parts.base().lower_typed_ternary(expected, value, scope, at)
    }

    open spec fn variant_list_call(
        &self,
        element: TypeRepr,
        value: Node,
        scope: Scope<'_>,
        at: SlotsView,
    ) -> Result<Option<FragmentView>, ErrorView> {
        self.parts.ground().variant_list_call(element, value, scope, at)
    }

    fn lower_variant_list_call(
        &self,
        element: &TypeRepr,
        value: &Node,
        scope: &Scope<'_>,
        at: &Slots,
    ) -> (r: Result<Option<Fragment>, LoweringError>) {
        self.parts.base().lower_variant_list_call(element, value, scope, at)
    }
}

impl<P: PartLowering> CallLowering for Around<P> {
    open spec fn special(
        &self,
        which: SpecialCall,
        path: Seq<TokenKey>,
        args: Seq<CallArg>,
        range: TokenRange,
        scope: Scope<'_>,
        at: SlotsView,
    ) -> Result<Option<FragmentView>, ErrorView> {
        self.parts.ground().special(which, path, args, range, scope, at)
    }

    fn try_special(
        &self,
        which: SpecialCall,
        path: &Vec<TokenKey>,
        args: &Vec<CallArg>,
        range: TokenRange,
        scope: &Scope<'_>,
        at: &Slots,
    ) -> (r: Result<Option<Fragment>, LoweringError>) {
        self.parts.base().try_special(which, path, args, range, scope, at)
    }

    open spec fn stdlib_arg(
        &self,
        routine: Seq<char>,
        index: int,
        value: Node,
        lowered: Result<FragmentView, ErrorView>,
        params: Seq<IrType>,
        range: TokenRange,
        scope: Scope<'_>,
        at: SlotsView,
    ) -> Result<FragmentView, ErrorView> {
        self.parts.ground().stdlib_arg(routine, index, value, lowered, params, range, scope, at)
    }

    fn lower_stdlib_arg(
        &self,
        routine: &String,
        index: usize,
        value: &Node,
        lowered: Result<Fragment, LoweringError>,
        params: &Vec<IrType>,
        range: TokenRange,
        scope: &Scope<'_>,
        at: &Slots,
    ) -> (r: Result<Fragment, LoweringError>) {
        self.parts.base().lower_stdlib_arg(routine, index, value, lowered, params, range, scope, at)
    }

    open spec fn receiver(
        &self,
        segments: Seq<TokenKey>,
        range: TokenRange,
        scope: Scope<'_>,
        at: SlotsView,
    ) -> Result<(FragmentView, Option<Seq<char>>), ErrorView> {
        self.parts.ground().receiver(segments, range, scope, at)
    }

    fn lower_method_receiver(
        &self,
        segments: &[TokenKey],
        range: TokenRange,
        scope: &Scope<'_>,
        at: &Slots,
    ) -> (r: Result<(Fragment, Option<String>), LoweringError>) {
        self.parts.base().lower_method_receiver(segments, range, scope, at)
    }

    open spec fn method_index(&self, receiver: IrType, name: Seq<char>) -> Option<u32> {
        self.parts.ground().method_index(receiver, name)
    }

    fn stdlib_method_index(&self, receiver: IrType, name: &String) -> (r: Option<u32>) {
        self.parts.base().stdlib_method_index(receiver, name)
    }

    open spec fn schema_call(
        &self,
        brand: Seq<char>,
        method: Seq<char>,
        args: Seq<CallArg>,
        range: TokenRange,
        scope: Scope<'_>,
        at: SlotsView,
    ) -> Option<Result<FragmentView, ErrorView>> {
        self.parts.ground().schema_call(brand, method, args, range, scope, at)
    }

    fn finish_schema_method_call(
        &self,
        brand: &String,
        method: &String,
        args: &Vec<CallArg>,
        range: TokenRange,
        scope: &Scope<'_>,
        at: &Slots,
    ) -> (r: Option<Result<Fragment, LoweringError>>) {
        self.parts.base().finish_schema_method_call(brand, method, args, range, scope, at)
    }

    open spec fn rendered(&self, ty: IrType, range: TokenRange, at: SlotsView) -> Result<
        FragmentView,
        ErrorView,
    > {
        self.parts.ground().rendered(ty, range, at)
    }

    fn lower_value_to_string(&self, ty: IrType, range: TokenRange, at: &Slots) -> (r: Result<
        Fragment,
        LoweringError,
    >) {
        self.parts.base().lower_value_to_string(ty, range, at)
    }
}

impl<P: PartLowering> ExprLowering for Around<P> {
    open spec fn composite(
        &self,
        expr: Expr,
        range: TokenRange,
        scope: Scope<'_>,
        at: SlotsView,
    ) -> Result<FragmentView, ErrorView> {
        self.parts.ground().composite(expr, range, scope, at)
    }

    fn lower_composite(
        &self,
        expr: &Expr,
        range: TokenRange,
        scope: &Scope<'_>,
        at: &Slots,
    ) -> (r: Result<Fragment, LoweringError>) {
        self.parts.base().lower_composite(expr, range, scope, at)
    }

    open spec fn spread(
        &self,
        items: Seq<Node>,
        range: TokenRange,
        scope: Scope<'_>,
        at: SlotsView,
    ) -> Option<Result<SpreadView, ErrorView>> {
        self.parts.ground().spread(items, range, scope, at)
    }

    fn resolve_spread(
        &self,
        items: &Vec<Node>,
        range: TokenRange,
        scope: &Scope<'_>,
        at: &Slots,
    ) -> (r: Option<Result<SpreadList, LoweringError>>) {
        self.parts.base().resolve_spread(items, range, scope, at)
    }
}

// ---------------------------------------------------------------------------
// Parts.
// ---------------------------------------------------------------------------

/// Parts as a function says. It stands in statements only: no such value is
/// ever made.
pub struct Told<L> {
    low: L,
    says: Ghost<spec_fn(Node, Scope<'static>, SlotsView) -> Result<FragmentView, ErrorView>>,
}

impl<L> Told<L> {
    #[verifier::type_invariant]
    spec fn never_made(self) -> bool {
        false
    }

    /// The parts that `says` gives above `low`.
    pub closed spec fn of(
        low: L,
        says: spec_fn(Node, Scope<'static>, SlotsView) -> Result<FragmentView, ErrorView>,
    ) -> Told<L> {
        Told { low, says: Ghost(says) }
    }
}

impl<L: ExprLowering> PartLowering for Told<L> {
    type Base = L;

    closed spec fn ground(&self) -> L {
        self.low
    }

    fn base(&self) -> (b: &L) {
        &self.low
    }

    closed spec fn part_lowered(&self, node: Node, scope: Scope<'_>, at: SlotsView) -> Result<
        FragmentView,
        ErrorView,
    > {
        (self.says@)(node, scope, at)
    }

    fn lower_part(&self, node: &Node, scope: &Scope<'_>, at: &Slots) -> (r: Result<
        Fragment,
        LoweringError,
    >) {
        proof {
            use_type_invariant(self);
        }
        Err(unsupported("untold expression", node.range))
    }
}

/// Parts as a closure lowers them.
struct Run<'a, L, F: Fn(&Node, &Scope<'_>, &Slots) -> Result<Fragment, LoweringError>> {
    low: &'a L,
    run: F,
    says: Ghost<spec_fn(Node, Scope<'static>, SlotsView) -> Result<FragmentView, ErrorView>>,
}

impl<'a, L, F: Fn(&Node, &Scope<'_>, &Slots) -> Result<Fragment, LoweringError>> Run<'a, L, F> {
    #[verifier::type_invariant]
    spec fn as_said(self) -> bool {
        &&& forall|node: &Node, scope: &Scope<'_>, at: &Slots| #[trigger]
            call_requires(self.run, (node, scope, at))
        &&& forall|
            node: &Node,
            scope: &Scope<'_>,
            at: &Slots,
            r: Result<Fragment, LoweringError>,
        | #[trigger]
            call_ensures(self.run, (node, scope, at), r) ==> outcome(r) == (self.says@)(
                *node,
                *scope,
                at@,
            )
    }
}

impl<
    'a,
    L: ExprLowering,
    F: Fn(&Node, &Scope<'_>, &Slots) -> Result<Fragment, LoweringError>,
> PartLowering for Run<'a, L, F> {
    type Base = L;

    closed spec fn ground(&self) -> L {
        *self.low
    }

    fn base(&self) -> (b: &L) {
        self.low
    }

    closed spec fn part_lowered(&self, node: Node, scope: Scope<'_>, at: SlotsView) -> Result<
        FragmentView,
        ErrorView,
    > {
        (self.says@)(node, scope, at)
    }

    fn lower_part(&self, node: &Node, scope: &Scope<'_>, at: &Slots) -> (r: Result<
        Fragment,
        LoweringError,
    >) {
        proof {
            use_type_invariant(self);
        }
        (self.run)(node, scope, at)
    }
}

// ---------------------------------------------------------------------------
// Levels.
// ---------------------------------------------------------------------------

/// The lowering of an expression `levels` levels above `low`: with no level left
/// it is that of `low`, and with one more the expression is lowered itself and
/// its parts are lowered with one level less.
pub open spec fn levels_lowered<L: ExprLowering>(
    env: ExprEnv<'_>,
    low: L,
    levels: nat,
    node: Node,
    scope: Scope<'_>,
    at: SlotsView,
) -> Result<FragmentView, ErrorView>
    decreases levels, 0nat,
{
    if levels == 0 {
        low.lowered(node, scope, at)
    } else if env.table.wf() && expr_fits(*node.expr) {
        expr_lowered(
            levels_above(env, low, (levels - 1) as nat),
            env,
            *node.expr,
            node.range,
            scope,
            at,
        )
    } else {
        Err(ErrorView::UnsupportedExpr { kind: "oversized expression"@, range: node.range })
    }
}

/// The lowering whose parts are lowered `levels` levels above `low`.
pub open spec fn levels_above<L: ExprLowering>(env: ExprEnv<'_>, low: L, levels: nat) -> Around<
    Told<L>,
>
    decreases levels, 1nat,
{
    Around {
        parts: Told::of(
            low,
            |node: Node, scope: Scope<'static>, at: SlotsView|
                levels_lowered(env, low, levels, node, scope, at),
        ),
    }
}

/// Two lowerings above one ground that give the same for parts.
proof fn lemma_same_parts<L: ExprLowering, P: PartLowering<Base = L>, Q: PartLowering<Base = L>>(
    p: Around<P>,
    q: Around<Q>,
)
    requires
        p.parts.ground() == q.parts.ground(),
    ensures
        alike_forms(p, q),
{
}

pub(crate) proof fn lemma_levels_above<L: ExprLowering>(
    env: ExprEnv<'_>,
    low: L,
    levels: nat,
    node: Node,
    scope: Scope<'_>,
    at: SlotsView,
)
    ensures
        levels_above(env, low, levels).parts.ground() == low,
        levels_above(env, low, levels).lowered(node, scope, at) == levels_lowered(
            env,
            low,
            levels,
            node,
            scope,
            at,
        ),
{
}

/// What answers for parts as the levels above `low` do gives the same for the
/// expression around them.
pub(crate) proof fn lemma_level_above<L: ExprLowering, P: PartLowering<Base = L>>(
    env: ExprEnv<'_>,
    low: L,
    levels: nat,
    p: Around<P>,
    node: Node,
    scope: Scope<'_>,
    at: SlotsView,
)
    requires
        p.parts.ground() == low,
        forall|n: Node, s: Scope<'_>, a: SlotsView| #[trigger]
            p.parts.part_lowered(n, s, a) == levels_lowered(env, low, levels, n, s, a),
    ensures
        expr_lowered(p, env, *node.expr, node.range, scope, at) == expr_lowered(
            levels_above(env, low, levels),
            env,
            *node.expr,
            node.range,
            scope,
            at,
        ),
{
    let q = levels_above(env, low, levels);
    lemma_levels_above(env, low, levels, node, scope, at);
    lemma_same_parts(p, q);
    assert forall|n: Node, s: Scope<'_>, a: SlotsView| #[trigger] p.lowered(n, s, a) == q.lowered(
        n,
        s,
        a,
    ) by {
        assert(p.parts.part_lowered(n, s, a) == levels_lowered(env, low, levels, n, s, a));
        lemma_levels_above(env, low, levels, n, s, a);
    }
    law_lowering_is_what_it_gives(p, q, env, *node.expr, node.range, scope, at);
}

/// Lowers an expression whose parts a closure lowers `below` levels above `low`.
fn lower_above<
    L: ExprLowering,
    F: Fn(&Node, &Scope<'_>, &Slots) -> Result<Fragment, LoweringError>,
>(
    env: &ExprEnv<'_>,
    low: &L,
    below: usize,
    run: F,
    node: &Node,
    scope: &Scope<'_>,
    at: &Slots,
) -> (r: Result<Fragment, LoweringError>)
    requires
        env.table.wf(),
        expr_fits(*node.expr),
        forall|n: &Node, s: &Scope<'_>, a: &Slots| #[trigger] call_requires(run, (n, s, a)),
        forall|n: &Node, s: &Scope<'_>, a: &Slots, r: Result<Fragment, LoweringError>|
         #[trigger]
            call_ensures(run, (n, s, a), r) ==> outcome(r) == levels_lowered(
                *env,
                *low,
                below as nat,
                *n,
                *s,
                a@,
            ),
    ensures
        outcome(r) == expr_lowered(
            levels_above(*env, *low, below as nat),
            *env,
            *node.expr,
            node.range,
            *scope,
            at@,
        ),
{
    let ghost says = |n: Node, s: Scope<'static>, a: SlotsView|
        levels_lowered(*env, *low, below as nat, n, s, a);
    let parts = Around { parts: Run { low, run, says: Ghost(says) } };
    proof {
        lemma_level_above(*env, *low, below as nat, parts, *node, *scope, at@);
    }
    lower_expr(&node.expr, node.range, env, scope, at, &parts)
}

/// Lowers an expression `levels` levels above `low`.
pub fn lower_levels<L: ExprLowering>(
    env: &ExprEnv<'_>,
    low: &L,
    levels: usize,
    node: &Node,
    scope: &Scope<'_>,
    at: &Slots,
) -> (r: Result<Fragment, LoweringError>)
    ensures
        outcome(r) == levels_lowered(*env, *low, levels as nat, *node, *scope, at@),
    decreases levels,
{
    if levels == 0 {
        return low.lower_node(node, scope, at);
    }
    if env.table.entries.len() > 0xffff_ffff || !fits(&node.expr) {
        return Err(unsupported("oversized expression", node.range));
    }
    let below: usize = levels - 1;
    let run = |n: &Node, s: &Scope<'_>, a: &Slots| -> (r: Result<Fragment, LoweringError>)
        ensures
            outcome(r) == levels_lowered(*env, *low, below as nat, *n, *s, a@),
        { lower_levels(env, low, below, n, s, a) };
    lower_above(env, low, below, run, node, scope, at)
}

/// Parts lowered as many levels above a ground as a counter says.
pub struct Levels<'a, L> {
    pub env: ExprEnv<'a>,
    pub low: L,
    pub levels: usize,
}

impl<'a, L: ExprLowering> PartLowering for Levels<'a, L> {
    type Base = L;

    open spec fn ground(&self) -> L {
        self.low
    }

    fn base(&self) -> (b: &L) {
        &self.low
    }

    open spec fn part_lowered(&self, node: Node, scope: Scope<'_>, at: SlotsView) -> Result<
        FragmentView,
        ErrorView,
    > {
        levels_lowered(self.env, self.low, self.levels as nat, node, scope, at)
    }

    fn lower_part(&self, node: &Node, scope: &Scope<'_>, at: &Slots) -> (r: Result<
        Fragment,
        LoweringError,
    >) {
        lower_levels(&self.env, &self.low, self.levels, node, scope, at)
    }
}

} // verus!

//! A lowering one level deeper than another.

use vstd::prelude::*;

use crate::ast::{CallArg, ClosureParam, Expr, Node, TokenKey, TokenRange, TypeNode};
use crate::calls::{CallLowering, SpecialCall};
use crate::canonical::SchemaTable;
use crate::constants::kept;
use crate::constants_expr::{keeping_exprs, law_expression_keeps};
use crate::depth::{agree, alike_exprs, nests, spreads_flat};
use crate::depth_calls::law_expression_asks_only_its_parts;
use crate::depth_entry::backends_agree;
use crate::dict_plan::ClosurePlanner;
use crate::error::{unsupported, ErrorView, LoweringError};
use crate::expr::{expr_fits, expr_lowered, lower_expr, ExprEnv, ExprLowering};
use crate::fragment::{
    ClosureSig, Fragment, FragmentView, Scope, SigView, Slots, SlotsView,
    SubLowering,
};
use crate::fresh::fresh;
use crate::fresh_expr::{freshening_exprs, law_expression_is_fresh};
use crate::ir::IrType;
use crate::list_literal::{SpreadList, SpreadView};
use crate::lowering::{EntryBackend, Methods};
use crate::materialize::list_has_computed_element;
use crate::module::FuncView;
use crate::names::NameTable;
use crate::native_import::HostFnEntry;
use crate::neat_expr::{law_expression_is_neat, neat_expr_lowering};
use crate::records::{LayoutView, OffsetTable, RecordBody, RecordLowering};
use crate::stack::neat_outcome;
use crate::types::{Schema, TypeRepr};

verus! {

/// Lowers an expression itself, and leaves the expressions that it contains to
/// another lowering. Every level around a lowering thus lets expressions nest
/// one level deeper. A list or a call whose size cannot be told to the code is
/// refused.
pub struct Nested<'a, L> {
    pub env: ExprEnv<'a>,
    pub inner: L,
}

/// Executable form of [`expr_fits`].
pub fn fits(expr: &Expr) -> (r: bool)
    ensures
        r == expr_fits(*expr),
{
    match expr {
        Expr::List(items) => items.len() <= 268_435_454 || items.len() > 0x7fff_ffff
            || !list_has_computed_element(items),
        Expr::FnCall { args, .. } => args.len() < 0xffff_ffff,
        _ => true,
    }
}

impl<'a, L: ExprLowering> SubLowering for Nested<'a, L> {
    open spec fn lowered(&self, node: Node, scope: Scope<'_>, at: SlotsView) -> Result<
        FragmentView,
        ErrorView,
    > {
        if self.env.table.wf() && expr_fits(*node.expr) {
            expr_lowered(self.inner, self.env, *node.expr, node.range, scope, at)
        } else {
            Err(ErrorView::UnsupportedExpr { kind: "oversized expression"@, range: node.range })
        }
    }

    fn lower_node(&self, node: &Node, scope: &Scope<'_>, at: &Slots) -> (r: Result<
        Fragment,
        LoweringError,
    >) {
        if self.env.table.entries.len() <= 0xffff_ffff && fits(&node.expr) {
            lower_expr(&node.expr, node.range, &self.env, scope, at, &self.inner)
        } else {
            Err(unsupported("oversized expression", node.range))
        }
    }

    open spec fn closure_lowered(
        &self,
        node: Node,
        param_tys: Seq<IrType>,
        ret_ty: IrType,
        scope: Scope<'_>,
        at: SlotsView,
    ) -> Result<FragmentView, ErrorView> {
        self.inner.closure_lowered(node, param_tys, ret_ty, scope, at)
    }

    fn lower_closure(
        &self,
        node: &Node,
        param_tys: &Vec<IrType>,
        ret_ty: IrType,
        scope: &Scope<'_>,
        at: &Slots,
    ) -> (r: Result<Fragment, LoweringError>) {
        self.inner.lower_closure(node, param_tys, ret_ty, scope, at)
    }

    open spec fn unary_lowered(
        &self,
        name: Seq<char>,
        body: Node,
        param_tys: Seq<IrType>,
        ret_ty: IrType,
        expected: Option<TypeRepr>,
        scope: Scope<'_>,
        at: SlotsView,
    ) -> Result<FragmentView, ErrorView> {
        self.inner.unary_lowered(name, body, param_tys, ret_ty, expected, scope, at)
    }

    fn lower_unary(
        &self,
        name: &String,
        body: &Node,
        param_tys: &Vec<IrType>,
        ret_ty: IrType,
        expected: Option<&TypeRepr>,
        scope: &Scope<'_>,
        at: &Slots,
    ) -> (r: Result<Fragment, LoweringError>) {
        self.inner.lower_unary(name, body, param_tys, ret_ty, expected, scope, at)
    }

    open spec fn list_use(&self, name: Seq<char>, body: Expr) -> bool {
        self.inner.list_use(name, body)
    }

    fn closure_param_used_as_list_int(&self, name: &String, body: &Expr) -> (r: bool) {
        self.inner.closure_param_used_as_list_int(name, body)
    }
}

impl<'a, L: ExprLowering> RecordLowering for Nested<'a, L> {
    open spec fn layout(&self, schema: Schema) -> Result<LayoutView, ErrorView> {
        self.inner.layout(schema)
    }

    fn offsets_for(&self, schema: &Schema) -> (r: Result<OffsetTable, LoweringError>) {
        self.inner.offsets_for(schema)
    }

    open spec fn declared(&self, name: Seq<char>) -> bool {
        self.inner.declared(name)
    }

    fn is_declared(&self, name: &String) -> (r: bool) {
        self.inner.is_declared(name)
    }

    open spec fn record_body(
        &self,
        kind: RecordBody,
        schema: Schema,
        value: Node,
        record: u32,
        range: TokenRange,
        scope: Scope<'_>,
        at: SlotsView,
    ) -> Result<FragmentView, ErrorView> {
        self.inner.record_body(kind, schema, value, record, range, scope, at)
    }

    fn lower_record_body(
        &self,
        kind: RecordBody,
        schema: &Schema,
        value: &Node,
        record: u32,
        range: TokenRange,
        scope: &Scope<'_>,
        at: &Slots,
    ) -> (r: Result<Fragment, LoweringError>) {
        self.inner.lower_record_body(kind, schema, value, record, range, scope, at)
    }

    open spec fn field_value(
        &self,
        schema: Schema,
        index: int,
        value: Node,
        scope: Scope<'_>,
        at: SlotsView,
    ) -> Result<FragmentView, ErrorView> {
        self.inner.field_value(schema, index, value, scope, at)
    }

    fn lower_field_value(
        &self,
        schema: &Schema,
        index: usize,
        value: &Node,
        scope: &Scope<'_>,
        at: &Slots,
    ) -> (r: Result<Fragment, LoweringError>) {
        self.inner.lower_field_value(schema, index, value, scope, at)
    }

    open spec fn typed_ternary(
        &self,
        expected: TypeRepr,
        value: Node,
        scope: Scope<'_>,
        at: SlotsView,
    ) -> Result<FragmentView, ErrorView> {
        self.inner.typed_ternary(expected, value, scope, at)
    }

    fn lower_typed_ternary(
        &self,
        expected: &TypeRepr,
        value: &Node,
        scope: &Scope<'_>,
        at: &Slots,
    ) -> (r: Result<Fragment, LoweringError>) {
        self.inner.lower_typed_ternary(expected, value, scope, at)
    }

    open spec fn variant_list_call(
        &self,
        element: TypeRepr,
        value: Node,
        scope: Scope<'_>,
        at: SlotsView,
    ) -> Result<Option<FragmentView>, ErrorView> {
        self.inner.variant_list_call(element, value, scope, at)
    }

    fn lower_variant_list_call(
        &self,
        element: &TypeRepr,
        value: &Node,
        scope: &Scope<'_>,
        at: &Slots,
    ) -> (r: Result<Option<Fragment>, LoweringError>) {
        self.inner.lower_variant_list_call(element, value, scope, at)
    }
}

impl<'a, L: ExprLowering> CallLowering for Nested<'a, L> {
    open spec fn special(
        &self,
        which: SpecialCall,
        path: Seq<TokenKey>,
        args: Seq<CallArg>,
        range: TokenRange,
        scope: Scope<'_>,
        at: SlotsView,
    ) -> Result<Option<FragmentView>, ErrorView> {
        self.inner.special(which, path, args, range, scope, at)
    }

    fn try_special(
        &self,
        which: SpecialCall,
        path: &Vec<TokenKey>,
        args: &Vec<CallArg>,
        range: TokenRange,
        scope: &Scope<'_>,
        at: &Slots,
    ) -> (r: Result<Option<Fragment>, LoweringError>) {
        self.inner.try_special(which, path, args, range, scope, at)
    }

    open spec fn stdlib_arg(
        &self,
        routine: Seq<char>,
        index: int,
        value: Node,
        lowered: Result<FragmentView, ErrorView>,
        params: Seq<IrType>,
        range: TokenRange,
        scope: Scope<'_>,
        at: SlotsView,
    ) -> Result<FragmentView, ErrorView> {
        self.inner.stdlib_arg(routine, index, value, lowered, params, range, scope, at)
    }

    fn lower_stdlib_arg(
        &self,
        routine: &String,
        index: usize,
        value: &Node,
        lowered: Result<Fragment, LoweringError>,
        params: &Vec<IrType>,
        range: TokenRange,
        scope: &Scope<'_>,
        at: &Slots,
    ) -> (r: Result<Fragment, LoweringError>) {
        self.inner.lower_stdlib_arg(routine, index, value, lowered, params, range, scope, at)
    }

    open spec fn receiver(
        &self,
        segments: Seq<TokenKey>,
        range: TokenRange,
        scope: Scope<'_>,
        at: SlotsView,
    ) -> Result<(FragmentView, Option<Seq<char>>), ErrorView> {
        self.inner.receiver(segments, range, scope, at)
    }

    fn lower_method_receiver(
        &self,
        segments: &[TokenKey],
        range: TokenRange,
        scope: &Scope<'_>,
        at: &Slots,
    ) -> (r: Result<(Fragment, Option<String>), LoweringError>) {
        self.inner.lower_method_receiver(segments, range, scope, at)
    }

    open spec fn method_index(&self, receiver: IrType, name: Seq<char>) -> Option<u32> {
        self.inner.method_index(receiver, name)
    }

    fn stdlib_method_index(&self, receiver: IrType, name: &String) -> (r: Option<u32>) {
        self.inner.stdlib_method_index(receiver, name)
    }

    open spec fn schema_call(
        &self,
        brand: Seq<char>,
        method: Seq<char>,
        args: Seq<CallArg>,
        range: TokenRange,
        scope: Scope<'_>,
        at: SlotsView,
    ) -> Option<Result<FragmentView, ErrorView>> {
        self.inner.schema_call(brand, method, args, range, scope, at)
    }

    fn finish_schema_method_call(
        &self,
        brand: &String,
        method: &String,
        args: &Vec<CallArg>,
        range: TokenRange,
        scope: &Scope<'_>,
        at: &Slots,
    ) -> (r: Option<Result<Fragment, LoweringError>>) {
        self.inner.finish_schema_method_call(brand, method, args, range, scope, at)
    }

    open spec fn rendered(&self, ty: IrType, range: TokenRange, at: SlotsView) -> Result<
        FragmentView,
        ErrorView,
    > {
        self.inner.rendered(ty, range, at)
    }

    fn lower_value_to_string(&self, ty: IrType, range: TokenRange, at: &Slots) -> (r: Result<
        Fragment,
        LoweringError,
    >) {
        self.inner.lower_value_to_string(ty, range, at)
    }
}

impl<'a, L: ExprLowering> ExprLowering for Nested<'a, L> {
    open spec fn composite(
        &self,
        expr: Expr,
        range: TokenRange,
        scope: Scope<'_>,
        at: SlotsView,
    ) -> Result<FragmentView, ErrorView> {
        self.inner.composite(expr, range, scope, at)
    }

    fn lower_composite(
        &self,
        expr: &Expr,
        range: TokenRange,
        scope: &Scope<'_>,
        at: &Slots,
    ) -> (r: Result<Fragment, LoweringError>) {
        self.inner.lower_composite(expr, range, scope, at)
    }

    open spec fn spread(
        &self,
        items: Seq<Node>,
        range: TokenRange,
        scope: Scope<'_>,
        at: SlotsView,
    ) -> Option<Result<SpreadView, ErrorView>> {
        self.inner.spread(items, range, scope, at)
    }

    fn resolve_spread(
        &self,
        items: &Vec<Node>,
        range: TokenRange,
        scope: &Scope<'_>,
        at: &Slots,
    ) -> (r: Option<Result<SpreadList, LoweringError>>) {
        self.inner.resolve_spread(items, range, scope, at)
    }
}

/// A lowering around a neat one is neat; by repetition, so is one of any depth.
pub proof fn law_nested_lowering_is_neat<'a, L: ExprLowering>(low: Nested<'a, L>)
    requires
        neat_expr_lowering(low.inner),
    ensures
        neat_expr_lowering(low),
{
    assert forall|node: Node, scope: Scope<'_>, at: SlotsView| neat_outcome(
        #[trigger] low.lowered(node, scope, at),
    ) by {
        if low.env.table.wf() && expr_fits(*node.expr) {
            law_expression_is_neat(low.inner, low.env, *node.expr, node.range, scope, at);
        }
    }
}

/// A lowering around a well-kept one is well kept, at any depth.
pub proof fn law_nested_lowering_keeps<'a, L: ExprLowering>(low: Nested<'a, L>)
    requires
        keeping_exprs(low.inner),
    ensures
        keeping_exprs(low),
{
    assert forall|node: Node, scope: Scope<'_>, at: SlotsView| kept(
        at,
        #[trigger] low.lowered(node, scope, at),
    ) by {
        if low.env.table.wf() && expr_fits(*node.expr) {
            law_expression_keeps(low.inner, low.env, *node.expr, node.range, scope, at);
        }
    }
}

/// A lowering around one with slots of its own has slots of its own, at any
/// depth.
pub proof fn law_nested_lowering_is_fresh<'a, L: ExprLowering>(low: Nested<'a, L>)
    requires
        freshening_exprs(low.inner),
    ensures
        freshening_exprs(low),
{
    assert forall|node: Node, scope: Scope<'_>, at: SlotsView| fresh(
        at,
        #[trigger] low.lowered(node, scope, at),
    ) by {
        if low.env.table.wf() && expr_fits(*node.expr) {
            law_expression_is_fresh(low.inner, low.env, *node.expr, node.range, scope, at);
        }
    }
}

/// A level around each of two lowerings that agree on what nests `n` levels makes
/// them agree on what nests one level more. As any two agree on what nests no
/// level at all, `n` levels around each make them agree on what nests `n`
/// levels, whatever is at the bottom.
pub proof fn law_levels_agree<'a, L: ExprLowering, H: ExprLowering>(
    low: Nested<'a, L>,
    high: Nested<'a, H>,
    n: nat,
)
    requires
        low.env == high.env,
        alike_exprs(low.inner, high.inner),
        agree(low.inner, high.inner, n),
    ensures
        alike_exprs(low, high),
        agree(low, high, n + 1),
{
    assert forall|node: Node, scope: Scope<'_>, at: SlotsView| nests(
        n + 1,
        *node.expr,
    ) implies #[trigger] low.lowered(node, scope, at) == high.lowered(node, scope, at) by {
        law_expression_asks_only_its_parts(
            low.inner,
            high.inner,
            n,
            low.env,
            *node.expr,
            node.range,
            scope,
            at,
        );
    }
}

/// A further level around a lowering changes nothing in what the lowering gives
/// for an expression that nests no more levels than there are already: where
/// the lowering and the further level agree on what nests `n` levels, one level
/// around both agrees with the further level around that.
pub proof fn law_further_level_changes_nothing<'a, L: ExprLowering>(
    low: L,
    env: ExprEnv<'a>,
    n: nat,
)
    requires
        spreads_flat(low),
        agree(low, (Nested { env, inner: low }), n),
    ensures
        spreads_flat((Nested { env, inner: low })),
        agree(
            (Nested { env, inner: low }),
            (Nested { env, inner: Nested { env, inner: low } }),
            n + 1,
        ),
{
    let one = Nested { env, inner: low };
    let two = Nested { env, inner: one };
    assert(alike_exprs(low, one));
    law_levels_agree(one, two, n);
}

// ---------------------------------------------------------------------------
// Entry modules.
// ---------------------------------------------------------------------------

/// A backend whose entry bodies nest one level deeper than those of another.
pub struct Deepened<B> {
    pub inner: B,
}

impl<B: ClosurePlanner> ClosurePlanner for Deepened<B> {
    open spec fn planned(
        &self,
        params: Seq<ClosureParam>,
        return_type: Option<TypeNode>,
        body: Expr,
    ) -> SigView {
        self.inner.planned(params, return_type, body)
    }

    fn plan_closure_sig(
        &self,
        params: &Vec<ClosureParam>,
        return_type: &Option<TypeNode>,
        body: &Expr,
    ) -> (r: ClosureSig) {
        self.inner.plan_closure_sig(params, return_type, body)
    }
}

impl<B: EntryBackend> EntryBackend for Deepened<B> {
    type Low<'p> = Nested<'p, B::Low<'p>>;

    open spec fn lowering_in<'p>(&self, env: ExprEnv<'p>) -> Nested<'p, B::Low<'p>> {
        Nested { env, inner: self.inner.lowering_in(env) }
    }

    fn lowering<'p>(&self, env: ExprEnv<'p>) -> (low: Nested<'p, B::Low<'p>>) {
        Nested { env, inner: self.inner.lowering(env) }
    }

    open spec fn layout_of(&self, schema: Schema) -> Result<LayoutView, ErrorView> {
        self.inner.layout_of(schema)
    }

    fn lay_out(&self, schema: &Schema) -> (r: Result<OffsetTable, LoweringError>) {
        self.inner.lay_out(schema)
    }

    open spec fn methods(
        &self,
        types: SchemaTable<'_>,
        host_fns: NameTable<HostFnEntry>,
    ) -> Result<(Seq<FuncView>, SlotsView), ErrorView> {
        self.inner.methods(types, host_fns)
    }

    fn lower_schema_methods(
        &self,
        types: &SchemaTable<'_>,
        host_fns: &NameTable<HostFnEntry>,
    ) -> (r: Result<Methods, LoweringError>) {
        self.inner.lower_schema_methods(types, host_fns)
    }
}

/// A level around each of two backends that agree on what nests `n` levels makes
/// them agree on what nests one level more.
pub proof fn law_deepened_backends_agree<B: EntryBackend, C: EntryBackend>(
    b: Deepened<B>,
    c: Deepened<C>,
    n: nat,
)
    requires
        backends_agree(b.inner, c.inner, n),
    ensures
        backends_agree(b, c, n + 1),
{
    assert forall|env: ExprEnv<'_>|
        alike_exprs(#[trigger] b.lowering_in(env), c.lowering_in(env)) && agree(
            b.lowering_in(env),
            c.lowering_in(env),
            n + 1,
        ) by {
        assert(alike_exprs(b.inner.lowering_in(env), c.inner.lowering_in(env)));
        law_levels_agree(b.lowering_in(env), c.lowering_in(env), n);
    }
}

/// A backend and a level around it give the same for all that is not an
/// expression. With [`law_deepened_backends_agree`], `n` levels around both give
/// the same for expressions that nest `n` levels, and by
/// [`crate::depth_entry::law_workspace_asks_only_the_parts_of_its_body`] for
/// workspaces whose entry has such a body.
pub proof fn law_level_changes_only_expressions<B: EntryBackend>(b: B)
    requires
        forall|env: ExprEnv<'_>| spreads_flat(#[trigger] b.lowering_in(env)),
    ensures
        backends_agree(b, (Deepened { inner: b }), 0),
{
    assert forall|env: ExprEnv<'_>|
        alike_exprs(#[trigger] b.lowering_in(env), (Deepened { inner: b }).lowering_in(env)) by {
        assert(spreads_flat(b.lowering_in(env)));
    }
}

} // verus!

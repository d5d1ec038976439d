//! What holds of a lowering that nests as many levels as a counter says.

use vstd::prelude::*;

use crate::ast::{ClosureParam, Expr, Node, TypeNode};
use crate::canonical::SchemaTable;
use crate::constants::kept;
use crate::constants_expr::{keeping_exprs, law_expression_keeps};
use crate::depth::{agree, alike_exprs, nests};
use crate::depth_calls::law_expression_asks_only_its_parts;
use crate::depth_entry::backends_agree;
use crate::dict_plan::ClosurePlanner;
use crate::error::{ErrorView, LoweringError};
use crate::expr::{expr_fits, ExprEnv, ExprLowering};
use crate::fragment::{ClosureSig, Scope, SigView, SlotsView, SubLowering};
use crate::fresh::fresh;
use crate::fresh_expr::{freshening_exprs, law_expression_is_fresh};
use crate::levels::{
    lemma_level_above, lemma_levels_above, levels_above, levels_lowered, Around, Levels,
    PartLowering,
};
use crate::lowering::{EntryBackend, Methods};
use crate::module::FuncView;
use crate::names::NameTable;
use crate::native_import::HostFnEntry;
use crate::neat_expr::{law_expression_is_neat, neat_expr_lowering};
use crate::nested::Nested;
use crate::records::{LayoutView, OffsetTable};
use crate::stack::neat_outcome;
use crate::types::Schema;

verus! {

/// A counter that is one higher is one level more.
pub proof fn law_counter_counts_levels<'a, L: ExprLowering>(
    counted: Levels<'a, L>,
    node: Node,
    scope: Scope<'_>,
    at: SlotsView,
)
    ensures
        levels_lowered(
            counted.env,
            counted.low,
            (counted.levels + 1) as nat,
            node,
            scope,
            at,
        ) == (Nested { env: counted.env, inner: Around { parts: counted } }).lowered(
            node,
            scope,
            at,
        ),
{
    lemma_level_above(
        counted.env,
        counted.low,
        counted.levels as nat,
        Around { parts: counted },
        node,
        scope,
        at,
    );
}

// ---------------------------------------------------------------------------
// Code.
// ---------------------------------------------------------------------------

proof fn lemma_around_is_neat<P: PartLowering>(p: Around<P>)
    requires
        neat_expr_lowering(p.parts.ground()),
        forall|node: Node, scope: Scope<'_>, at: SlotsView|
            neat_outcome(#[trigger] p.parts.part_lowered(node, scope, at)),
    ensures
        neat_expr_lowering(p),
{
    assert forall|node: Node, scope: Scope<'_>, at: SlotsView| neat_outcome(
        #[trigger] p.lowered(node, scope, at),
    ) by {
        assert(neat_outcome(p.parts.part_lowered(node, scope, at)));
    }
}

proof fn lemma_levels_are_neat<L: ExprLowering>(env: ExprEnv<'_>, low: L, levels: nat)
    requires
        neat_expr_lowering(low),
    ensures
        forall|node: Node, scope: Scope<'_>, at: SlotsView|
            neat_outcome(#[trigger] levels_lowered(env, low, levels, node, scope, at)),
    decreases levels,
{
    assert forall|node: Node, scope: Scope<'_>, at: SlotsView| neat_outcome(
        #[trigger] levels_lowered(env, low, levels, node, scope, at),
    ) by {
        if levels == 0 {
            assert(neat_outcome(low.lowered(node, scope, at)));
        } else if env.table.wf() && expr_fits(*node.expr) {
            let below = (levels - 1) as nat;
            let around = levels_above(env, low, below);
            lemma_levels_are_neat(env, low, below);
            lemma_levels_above(env, low, below, node, scope, at);
            assert forall|n: Node, s: Scope<'_>, a: SlotsView| neat_outcome(
                #[trigger] around.parts.part_lowered(n, s, a),
            ) by {
                lemma_levels_above(env, low, below, n, s, a);
                assert(neat_outcome(levels_lowered(env, low, below, n, s, a)));
            }
            lemma_around_is_neat(around);
            law_expression_is_neat(around, env, *node.expr, node.range, scope, at);
        }
    }
}

/// Levels around a neat lowering are neat.
pub proof fn law_counted_lowering_is_neat<'a, L: ExprLowering>(counted: Levels<'a, L>)
    requires
        neat_expr_lowering(counted.low),
    ensures
        neat_expr_lowering((Around { parts: counted })),
{
    lemma_levels_are_neat(counted.env, counted.low, counted.levels as nat);
    lemma_around_is_neat(Around { parts: counted });
}

proof fn lemma_around_keeps<P: PartLowering>(p: Around<P>)
    requires
        keeping_exprs(p.parts.ground()),
        forall|node: Node, scope: Scope<'_>, at: SlotsView|
            kept(at, #[trigger] p.parts.part_lowered(node, scope, at)),
    ensures
        keeping_exprs(p),
{
    assert forall|node: Node, scope: Scope<'_>, at: SlotsView| kept(
        at,
        #[trigger] p.lowered(node, scope, at),
    ) by {
        assert(kept(at, p.parts.part_lowered(node, scope, at)));
    }
}

proof fn lemma_levels_keep<L: ExprLowering>(env: ExprEnv<'_>, low: L, levels: nat)
    requires
        keeping_exprs(low),
    ensures
        forall|node: Node, scope: Scope<'_>, at: SlotsView|
            kept(at, #[trigger] levels_lowered(env, low, levels, node, scope, at)),
    decreases levels,
{
    assert forall|node: Node, scope: Scope<'_>, at: SlotsView| kept(
        at,
        #[trigger] levels_lowered(env, low, levels, node, scope, at),
    ) by {
        if levels == 0 {
            assert(kept(at, low.lowered(node, scope, at)));
        } else if env.table.wf() && expr_fits(*node.expr) {
            let below = (levels - 1) as nat;
            let around = levels_above(env, low, below);
            lemma_levels_keep(env, low, below);
            lemma_levels_above(env, low, below, node, scope, at);
            assert forall|n: Node, s: Scope<'_>, a: SlotsView| kept(
                a,
                #[trigger] around.parts.part_lowered(n, s, a),
            ) by {
                lemma_levels_above(env, low, below, n, s, a);
                assert(kept(a, levels_lowered(env, low, below, n, s, a)));
            }
            lemma_around_keeps(around);
            law_expression_keeps(around, env, *node.expr, node.range, scope, at);
        }
    }
}

/// Levels around a well-kept lowering are well kept.
pub proof fn law_counted_lowering_keeps<'a, L: ExprLowering>(counted: Levels<'a, L>)
    requires
        keeping_exprs(counted.low),
    ensures
        keeping_exprs((Around { parts: counted })),
{
    lemma_levels_keep(counted.env, counted.low, counted.levels as nat);
    lemma_around_keeps(Around { parts: counted });
}

proof fn lemma_around_is_fresh<P: PartLowering>(p: Around<P>)
    requires
        freshening_exprs(p.parts.ground()),
        forall|node: Node, scope: Scope<'_>, at: SlotsView|
            fresh(at, #[trigger] p.parts.part_lowered(node, scope, at)),
    ensures
        freshening_exprs(p),
{
    assert forall|node: Node, scope: Scope<'_>, at: SlotsView| fresh(
        at,
        #[trigger] p.lowered(node, scope, at),
    ) by {
        assert(fresh(at, p.parts.part_lowered(node, scope, at)));
    }
}

proof fn lemma_levels_are_fresh<L: ExprLowering>(env: ExprEnv<'_>, low: L, levels: nat)
    requires
        freshening_exprs(low),
    ensures
        forall|node: Node, scope: Scope<'_>, at: SlotsView|
            fresh(at, #[trigger] levels_lowered(env, low, levels, node, scope, at)),
    decreases levels,
{
    assert forall|node: Node, scope: Scope<'_>, at: SlotsView| fresh(
        at,
        #[trigger] levels_lowered(env, low, levels, node, scope, at),
    ) by {
        if levels == 0 {
            assert(fresh(at, low.lowered(node, scope, at)));
        } else if env.table.wf() && expr_fits(*node.expr) {
            let below = (levels - 1) as nat;
            let around = levels_above(env, low, below);
            lemma_levels_are_fresh(env, low, below);
            lemma_levels_above(env, low, below, node, scope, at);
            assert forall|n: Node, s: Scope<'_>, a: SlotsView| fresh(
                a,
                #[trigger] around.parts.part_lowered(n, s, a),
            ) by {
                lemma_levels_above(env, low, below, n, s, a);
                assert(fresh(a, levels_lowered(env, low, below, n, s, a)));
            }
            lemma_around_is_fresh(around);
            law_expression_is_fresh(around, env, *node.expr, node.range, scope, at);
        }
    }
}

/// Levels around a lowering with slots of its own have slots of their own.
pub proof fn law_counted_lowering_is_fresh<'a, L: ExprLowering>(counted: Levels<'a, L>)
    requires
        freshening_exprs(counted.low),
    ensures
        freshening_exprs((Around { parts: counted })),
{
    lemma_levels_are_fresh(counted.env, counted.low, counted.levels as nat);
    lemma_around_is_fresh(Around { parts: counted });
}

// ---------------------------------------------------------------------------
// Depth.
// ---------------------------------------------------------------------------

proof fn lemma_around_alike<P: PartLowering, Q: PartLowering>(p: Around<P>, q: Around<Q>)
    requires
        alike_exprs(p.parts.ground(), q.parts.ground()),
    ensures
        alike_exprs(p, q),
{
}

proof fn lemma_levels_agree<L: ExprLowering, H: ExprLowering>(
    env: ExprEnv<'_>,
    low: L,
    high: H,
    n: nat,
    a: nat,
    b: nat,
    node: Node,
    scope: Scope<'_>,
    at: SlotsView,
)
    requires
        alike_exprs(low, high),
        n <= a,
        n <= b,
        nests(n, *node.expr),
    ensures
        levels_lowered(env, low, a, node, scope, at) == levels_lowered(
            env,
            high,
            b,
            node,
            scope,
            at,
        ),
    decreases n,
{
    if env.table.wf() && expr_fits(*node.expr) {
        let p = levels_above(env, low, (a - 1) as nat);
        let q = levels_above(env, high, (b - 1) as nat);
        lemma_levels_above(env, low, (a - 1) as nat, node, scope, at);
        lemma_levels_above(env, high, (b - 1) as nat, node, scope, at);
        lemma_around_alike(p, q);
        let m = (n - 1) as nat;
        assert forall|x: Node, s: Scope<'_>, t: SlotsView| nests(m, *x.expr) implies #[trigger]
            p.lowered(x, s, t) == q.lowered(x, s, t) by {
            lemma_levels_above(env, low, (a - 1) as nat, x, s, t);
            lemma_levels_above(env, high, (b - 1) as nat, x, s, t);
            lemma_levels_agree(env, low, high, m, (a - 1) as nat, (b - 1) as nat, x, s, t);
        }
        law_expression_asks_only_its_parts(p, q, m, env, *node.expr, node.range, scope, at);
    }
}

/// A counter that is as high as an expression nests is high enough: what it
/// gives is the same with a higher counter, and above any other ground that
/// gives the same for all that is no expression.
pub proof fn law_enough_levels_are_all<'a, L: ExprLowering, H: ExprLowering>(
    low: Levels<'a, L>,
    high: Levels<'a, H>,
    n: nat,
)
    requires
        low.env == high.env,
        alike_exprs(low.low, high.low),
        n <= low.levels,
        n <= high.levels,
    ensures
        alike_exprs((Around { parts: low }), (Around { parts: high })),
        agree((Around { parts: low }), (Around { parts: high }), n),
{
    let p = Around { parts: low };
    let q = Around { parts: high };
    lemma_around_alike(p, q);
    assert forall|node: Node, scope: Scope<'_>, at: SlotsView| nests(n, *node.expr) implies
    #[trigger] p.lowered(node, scope, at) == q.lowered(node, scope, at) by {
        lemma_levels_agree(
            low.env,
            low.low,
            high.low,
            n,
            low.levels as nat,
            high.levels as nat,
            node,
            scope,
            at,
        );
    }
}

// ---------------------------------------------------------------------------
// Entry modules.
// ---------------------------------------------------------------------------

/// A backend whose entry bodies nest as many levels deeper than those of another
/// as a counter says.
pub struct Counted<B> {
    pub inner: B,
    pub levels: usize,
}

impl<B: ClosurePlanner> ClosurePlanner for Counted<B> {
    open spec fn planned(
        &self,
        params: Seq<ClosureParam>,
        return_type: Option<TypeNode>,
        body: Expr,
    ) -> SigView {
        self.inner.planned(params, return_type, body)
    }

    fn plan_closure_sig(
        &self,
        params: &Vec<ClosureParam>,
        return_type: &Option<TypeNode>,
        body: &Expr,
    ) -> (r: ClosureSig) {
        self.inner.plan_closure_sig(params, return_type, body)
    }
}

impl<B: EntryBackend> EntryBackend for Counted<B> {
    type Low<'p> = Around<Levels<'p, B::Low<'p>>>;

    open spec fn lowering_in<'p>(&self, env: ExprEnv<'p>) -> Around<Levels<'p, B::Low<'p>>> {
        Around { parts: Levels { env, low: self.inner.lowering_in(env), levels: self.levels } }
    }

    fn lowering<'p>(&self, env: ExprEnv<'p>) -> (low: Around<Levels<'p, B::Low<'p>>>) {
        Around { parts: Levels { env, low: self.inner.lowering(env), levels: self.levels } }
    }

    open spec fn layout_of(&self, schema: Schema) -> Result<LayoutView, ErrorView> {
        self.inner.layout_of(schema)
    }

    fn lay_out(&self, schema: &Schema) -> (r: Result<OffsetTable, LoweringError>) {
        self.inner.lay_out(schema)
    }

    open spec fn methods(
        &self,
        types: SchemaTable<'_>,
        host_fns: NameTable<HostFnEntry>,
    ) -> Result<(Seq<FuncView>, SlotsView), ErrorView> {
        self.inner.methods(types, host_fns)
    }

    fn lower_schema_methods(
        &self,
        types: &SchemaTable<'_>,
        host_fns: &NameTable<HostFnEntry>,
    ) -> (r: Result<Methods, LoweringError>) {
        self.inner.lower_schema_methods(types, host_fns)
    }
}

/// Two backends that are alike but for expressions, each with a counter of at
/// least `n`, agree on what nests `n` levels; by
/// [`crate::depth_entry::law_workspace_asks_only_the_parts_of_its_body`] they
/// give the same for workspaces whose entry has such a body. A backend is alike
/// with itself, so raising its counter changes nothing there.
pub proof fn law_counted_backends_agree<B: EntryBackend, C: EntryBackend>(
    b: Counted<B>,
    c: Counted<C>,
    n: nat,
)
    requires
        backends_agree(b.inner, c.inner, 0),
        n <= b.levels,
        n <= c.levels,
    ensures
        backends_agree(b, c, n),
{
    assert forall|env: ExprEnv<'_>|
        alike_exprs(#[trigger] b.lowering_in(env), c.lowering_in(env)) && agree(
            b.lowering_in(env),
            c.lowering_in(env),
            n,
        ) by {
        assert(alike_exprs(b.inner.lowering_in(env), c.inner.lowering_in(env)));
        law_enough_levels_are_all(b.lowering_in(env).parts, c.lowering_in(env).parts, n);
    }
}

} // verus!

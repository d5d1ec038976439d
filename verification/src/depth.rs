//! How deep expressions nest. A lowering that leaves the parts of an expression
//! to another one asks it for nothing but those parts.

use vstd::prelude::*;

use crate::ast::{CallArg, Expr, Node, TokenKey, TokenRange};
use crate::calls::{CallLowering, SpecialCall};
use crate::chain::{
    bare_range, chain_of, nested_map, outer_combine, row_fold, single_map, ChainStage,
    NestedRangeShape, RowFold,
};
use crate::error::ErrorView;
use crate::expr::ExprLowering;
use crate::fragment::{FragmentView, Scope, SlotsView, SubLowering};
use crate::ir::IrType;
use crate::list_literal::SpreadView;
use crate::range_loop::RangeConsumer;
use crate::records::{RecordBody, RecordLowering};
use crate::types::{Schema, TypeRepr};

verus! {

/// The expression nests at most `n` levels, its own included.
pub open spec fn nests(n: nat, e: Expr) -> bool
    decreases n,
{
    n > 0 && match e {
        Expr::List(items) => forall|i: int|
            0 <= i < items@.len() ==> nests((n - 1) as nat, *(#[trigger] items@[i]).expr),
        Expr::Tuple(items) => forall|i: int|
            0 <= i < items@.len() ==> nests((n - 1) as nat, *(#[trigger] items@[i]).expr),
        Expr::FString(parts) => forall|i: int|
            0 <= i < parts@.len() ==> nests((n - 1) as nat, *(#[trigger] parts@[i]).expr),
        Expr::Dict(pairs) => forall|i: int|
            0 <= i < pairs@.len() ==> nests(
                (n - 1) as nat,
                *(#[trigger] pairs@[i]).1.expr,
            ),
        Expr::Variable(path) => forall|i: int|
            0 <= i < path@.len() ==> match #[trigger] path@[i] {
                TokenKey::Dynamic(node, _) => nests((n - 1) as nat, *node.expr),
                TokenKey::Spread(node) => nests((n - 1) as nat, *node.expr),
                _ => true,
            },
        Expr::Match { expr, arms } => nests((n - 1) as nat, *expr.expr) && forall|i: int|
            0 <= i < arms@.len() ==> nests((n - 1) as nat, *(#[trigger] arms@[i]).1.expr),
        Expr::Binary(_, l, r) => nests((n - 1) as nat, *l.expr) && nests(
            (n - 1) as nat,
            *r.expr,
        ),
        Expr::Unary(_, operand) => nests((n - 1) as nat, *operand.expr),
        Expr::Ternary { cond, then: yes, els } => nests((n - 1) as nat, *cond.expr)
            && nests((n - 1) as nat, *yes.expr) && nests((n - 1) as nat, *els.expr),
        Expr::Where { expr, bindings } => nests((n - 1) as nat, *expr.expr) && nests(
            (n - 1) as nat,
            *bindings.expr,
        ),
        Expr::Comprehension { element, iterable, condition, .. } => nests(
            (n - 1) as nat,
            *element.expr,
        ) && nests((n - 1) as nat, *iterable.expr) && (condition matches Some(c) ==> nests(
            (n - 1) as nat,
            *c.expr,
        )),
        Expr::FnCall { path, args } => {
            &&& forall|i: int|
                0 <= i < path@.len() ==> match #[trigger] path@[i] {
                    TokenKey::Dynamic(node, _) => nests((n - 1) as nat, *node.expr),
                    TokenKey::Spread(node) => nests((n - 1) as nat, *node.expr),
                    _ => true,
                }
            &&& forall|i: int|
                0 <= i < args@.len() ==> nests(
                    (n - 1) as nat,
                    *(#[trigger] args@[i]).value.expr,
                )
        },
        Expr::Closure { body, .. } => nests((n - 1) as nat, *body.expr),
        Expr::VariantCtor { body, .. } => nests((n - 1) as nat, *body.expr),
        _ => true,
    }
}

/// The arguments of a call nest at most `n` levels.
pub open spec fn args_nest(n: nat, args: Seq<CallArg>) -> bool {
    forall|i: int| 0 <= i < args.len() ==> nests(n, *(#[trigger] args[i]).value.expr)
}

/// The arguments of a range, of which there is one, nest at most `n` levels.
pub open spec fn bounds_nest(n: nat, args: Seq<CallArg>) -> bool {
    args.len() > 0 && args_nest(n, args)
}

/// The expressions nest at most `n` levels.
pub open spec fn nodes_nest(n: nat, nodes: Seq<Node>) -> bool {
    forall|i: int| 0 <= i < nodes.len() ==> nests(n, *(#[trigger] nodes[i]).expr)
}

/// The expressions in a path nest at most `n` levels.
pub open spec fn keys_nest(n: nat, path: Seq<TokenKey>) -> bool {
    forall|i: int|
        0 <= i < path.len() ==> match #[trigger] path[i] {
            TokenKey::Dynamic(node, _) => nests(n, *node.expr),
            TokenKey::Spread(node) => nests(n, *node.expr),
            _ => true,
        }
}

/// The bodies of the arms nest at most `n` levels.
pub open spec fn arms_nest(n: nat, arms: Seq<(Node, Node)>) -> bool {
    forall|i: int| 0 <= i < arms.len() ==> nests(n, *(#[trigger] arms[i]).1.expr)
}

/// The values of a dictionary nest at most `n` levels.
pub open spec fn pairs_nest(n: nat, pairs: Seq<(TokenKey, Node)>) -> bool {
    forall|i: int| 0 <= i < pairs.len() ==> nests(n, *(#[trigger] pairs[i]).1.expr)
}

/// The closures of the stages nest at most `n` levels.
pub open spec fn stages_nest(n: nat, stages: Seq<ChainStage<'_>>) -> bool {
    forall|i: int|
        0 <= i < stages.len() ==> nests(n, *(#[trigger] stages[i]).closure_body.expr)
}

/// What a consumer holds nests at most `n` levels.
pub open spec fn consumer_nests(n: nat, consumer: RangeConsumer<'_>) -> bool {
    consumer matches RangeConsumer::Reduce { init, body, .. } ==> nests(n, *init.expr) && nests(
        n,
        *body.expr,
    )
}

/// What the fold of a row holds nests at most `n` levels.
pub open spec fn fold_nests(n: nat, fold: RowFold<'_>) -> bool {
    fold matches RowFold::Reduce { init, body, .. } ==> nests(n, *init.expr) && nests(n, *body.expr)
}

/// What the shape of a nested reduction holds nests at most `n` levels.
pub open spec fn shape_nests(n: nat, shape: NestedRangeShape<'_>) -> bool {
    bounds_nest(n, shape.outer_range_args@) && bounds_nest(n, shape.inner_range_args@) && nests(
        n,
        *shape.cell_body.expr,
    )
}

/// The elements that spreads were flattened to nest at most `n` levels.
pub open spec fn flat_nests(n: nat, spread: Option<Result<SpreadView, ErrorView>>) -> bool {
    spread matches Some(Ok(SpreadView::Flat(flat))) ==> nodes_nest(n, flat)
}

/// The lowerings give the same for every expression that nests at most `n`
/// levels.
pub open spec fn agree<L: SubLowering, H: SubLowering>(l: L, h: H, n: nat) -> bool {
    forall|node: Node, scope: Scope<'_>, at: SlotsView|
        nests(n, *node.expr) ==> #[trigger] l.lowered(node, scope, at) == h.lowered(
            node,
            scope,
            at,
        )
}

/// The lowerings give the same for closures.
pub open spec fn alike<L: SubLowering, H: SubLowering>(l: L, h: H) -> bool {
    &&& forall|
        node: Node,
        param_tys: Seq<IrType>,
        ret_ty: IrType,
        scope: Scope<'_>,
        at: SlotsView,
    | #[trigger]
        l.closure_lowered(node, param_tys, ret_ty, scope, at) == h.closure_lowered(
            node,
            param_tys,
            ret_ty,
            scope,
            at,
        )
    &&& forall|
        name: Seq<char>,
        body: Node,
        param_tys: Seq<IrType>,
        ret_ty: IrType,
        expected: Option<TypeRepr>,
        scope: Scope<'_>,
        at: SlotsView,
    | #[trigger]
        l.unary_lowered(name, body, param_tys, ret_ty, expected, scope, at) == h.unary_lowered(
            name,
            body,
            param_tys,
            ret_ty,
            expected,
            scope,
            at,
        )
    &&& forall|name: Seq<char>, body: Expr| #[trigger]
        l.list_use(name, body) == h.list_use(name, body)
}

/// The lowerings give the same for closures and records.
pub open spec fn alike_records<L: RecordLowering, H: RecordLowering>(l: L, h: H) -> bool {
    &&& alike(l, h)
    &&& forall|schema: Schema| #[trigger] l.layout(schema) == h.layout(schema)
    &&& forall|name: Seq<char>| #[trigger] l.declared(name) == h.declared(name)
    &&& forall|
        kind: RecordBody,
        schema: Schema,
        value: Node,
        record: u32,
        range: TokenRange,
        scope: Scope<'_>,
        at: SlotsView,
    | #[trigger]
        l.record_body(kind, schema, value, record, range, scope, at) == h.record_body(
            kind,
            schema,
            value,
            record,
            range,
            scope,
            at,
        )
    &&& forall|schema: Schema, index: int, value: Node, scope: Scope<'_>, at: SlotsView| #[trigger]
        l.field_value(schema, index, value, scope, at) == h.field_value(
            schema,
            index,
            value,
            scope,
            at,
        )
    &&& forall|expected: TypeRepr, value: Node, scope: Scope<'_>, at: SlotsView| #[trigger]
        l.typed_ternary(expected, value, scope, at) == h.typed_ternary(expected, value, scope, at)
    &&& forall|element: TypeRepr, value: Node, scope: Scope<'_>, at: SlotsView| #[trigger]
        l.variant_list_call(element, value, scope, at) == h.variant_list_call(
            element,
            value,
            scope,
            at,
        )
}

/// The lowerings give the same for closures, records and calls.
pub open spec fn alike_calls<L: CallLowering, H: CallLowering>(l: L, h: H) -> bool {
    &&& alike_records(l, h)
    &&& forall|
        which: SpecialCall,
        path: Seq<TokenKey>,
        args: Seq<CallArg>,
        range: TokenRange,
        scope: Scope<'_>,
        at: SlotsView,
    | #[trigger]
        l.special(which, path, args, range, scope, at) == h.special(
            which,
            path,
            args,
            range,
            scope,
            at,
        )
    &&& forall|
        routine: Seq<char>,
        index: int,
        value: Node,
        lowered: Result<FragmentView, ErrorView>,
        params: Seq<IrType>,
        range: TokenRange,
        scope: Scope<'_>,
        at: SlotsView,
    | #[trigger]
        l.stdlib_arg(routine, index, value, lowered, params, range, scope, at) == h.stdlib_arg(
            routine,
            index,
            value,
            lowered,
            params,
            range,
            scope,
            at,
        )
    &&& forall|segments: Seq<TokenKey>, range: TokenRange, scope: Scope<'_>, at: SlotsView|
     #[trigger]
        l.receiver(segments, range, scope, at) == h.receiver(segments, range, scope, at)
    &&& forall|receiver: IrType, name: Seq<char>| #[trigger]
        l.method_index(receiver, name) == h.method_index(receiver, name)
    &&& forall|
        brand: Seq<char>,
        method: Seq<char>,
        args: Seq<CallArg>,
        range: TokenRange,
        scope: Scope<'_>,
        at: SlotsView,
    | #[trigger]
        l.schema_call(brand, method, args, range, scope, at) == h.schema_call(
            brand,
            method,
            args,
            range,
            scope,
            at,
        )
    &&& forall|ty: IrType, range: TokenRange, at: SlotsView| #[trigger]
        l.rendered(ty, range, at) == h.rendered(ty, range, at)
}

/// The items of a resolved spread nest no deeper than those that it stands for.
pub open spec fn spreads_flat<L: ExprLowering>(l: L) -> bool {
    forall|n: nat, items: Seq<Node>, range: TokenRange, scope: Scope<'_>, at: SlotsView|
        #![trigger nodes_nest(n, items), l.spread(items, range, scope, at)]
        nodes_nest(n, items) ==> flat_nests(n, l.spread(items, range, scope, at))
}

/// The lowerings give the same for everything but expressions that are left to
/// them as parts.
pub open spec fn alike_forms<L: ExprLowering, H: ExprLowering>(l: L, h: H) -> bool {
    &&& alike_calls(l, h)
    &&& forall|expr: Expr, range: TokenRange, scope: Scope<'_>, at: SlotsView| #[trigger]
        l.composite(expr, range, scope, at) == h.composite(expr, range, scope, at)
    &&& forall|items: Seq<Node>, range: TokenRange, scope: Scope<'_>, at: SlotsView| #[trigger]
        l.spread(items, range, scope, at) == h.spread(items, range, scope, at)
}

/// The lowerings give the same for everything but expressions that are left to
/// them as parts; what they flatten spreads to nests no deeper than the elements.
pub open spec fn alike_exprs<L: ExprLowering, H: ExprLowering>(l: L, h: H) -> bool {
    alike_forms(l, h) && spreads_flat(l)
}

/// What nests at most `n` levels nests at most `m`, where that is more.
pub proof fn lemma_nests_more(n: nat, m: nat, e: Expr)
    requires
        n <= m,
        nests(n, e),
    ensures
        nests(m, e),
    decreases n,
{
    let below = (m - 1) as nat;
    match e {
        Expr::List(items) => {
            assert forall|i: int| 0 <= i < items@.len() implies nests(
                below,
                *(#[trigger] items@[i]).expr,
            ) by {
                lemma_nests_more((n - 1) as nat, below, *items@[i].expr);
            }
        },
        Expr::Tuple(items) => {
            assert forall|i: int| 0 <= i < items@.len() implies nests(
                below,
                *(#[trigger] items@[i]).expr,
            ) by {
                lemma_nests_more((n - 1) as nat, below, *items@[i].expr);
            }
        },
        Expr::FString(parts) => {
            assert forall|i: int| 0 <= i < parts@.len() implies nests(
                below,
                *(#[trigger] parts@[i]).expr,
            ) by {
                lemma_nests_more((n - 1) as nat, below, *parts@[i].expr);
            }
        },
        Expr::Dict(pairs) => {
            assert forall|i: int| 0 <= i < pairs@.len() implies nests(
                below,
                *(#[trigger] pairs@[i]).1.expr,
            ) by {
                lemma_nests_more((n - 1) as nat, below, *pairs@[i].1.expr);
            }
        },
        Expr::Variable(path) => {
            assert forall|i: int| 0 <= i < path@.len() implies match #[trigger] path@[i] {
                TokenKey::Dynamic(node, _) => nests(below, *node.expr),
                TokenKey::Spread(node) => nests(below, *node.expr),
                _ => true,
            } by {
                match path@[i] {
                    TokenKey::Dynamic(node, _) => {
                        lemma_nests_more((n - 1) as nat, below, *node.expr);
                    },
                    TokenKey::Spread(node) => {
                        lemma_nests_more((n - 1) as nat, below, *node.expr);
                    },
                    _ => {},
                }
            }
        },
        Expr::Match { expr, arms } => {
            lemma_nests_more((n - 1) as nat, below, *expr.expr);
            assert forall|i: int| 0 <= i < arms@.len() implies nests(
                below,
                *(#[trigger] arms@[i]).1.expr,
            ) by {
                lemma_nests_more((n - 1) as nat, below, *arms@[i].1.expr);
            }
        },
        Expr::Binary(_, l, r) => {
            lemma_nests_more((n - 1) as nat, below, *l.expr);
            lemma_nests_more((n - 1) as nat, below, *r.expr);
        },
        Expr::Unary(_, operand) => {
            lemma_nests_more((n - 1) as nat, below, *operand.expr);
        },
        Expr::Ternary { cond, then: yes, els } => {
            lemma_nests_more((n - 1) as nat, below, *cond.expr);
            lemma_nests_more((n - 1) as nat, below, *yes.expr);
            lemma_nests_more((n - 1) as nat, below, *els.expr);
        },
        Expr::Where { expr, bindings } => {
            lemma_nests_more((n - 1) as nat, below, *expr.expr);
            lemma_nests_more((n - 1) as nat, below, *bindings.expr);
        },
        Expr::Comprehension { element, iterable, condition, .. } => {
            lemma_nests_more((n - 1) as nat, below, *element.expr);
            lemma_nests_more((n - 1) as nat, below, *iterable.expr);
            if let Some(c) = condition {
                lemma_nests_more((n - 1) as nat, below, *c.expr);
            }
        },
        Expr::FnCall { path, args } => {
            assert forall|i: int| 0 <= i < path@.len() implies match #[trigger] path@[i] {
                TokenKey::Dynamic(node, _) => nests(below, *node.expr),
                TokenKey::Spread(node) => nests(below, *node.expr),
                _ => true,
            } by {
                match path@[i] {
                    TokenKey::Dynamic(node, _) => {
                        lemma_nests_more((n - 1) as nat, below, *node.expr);
                    },
                    TokenKey::Spread(node) => {
                        lemma_nests_more((n - 1) as nat, below, *node.expr);
                    },
                    _ => {},
                }
            }
            assert forall|i: int| 0 <= i < args@.len() implies nests(
                below,
                *(#[trigger] args@[i]).value.expr,
            ) by {
                lemma_nests_more((n - 1) as nat, below, *args@[i].value.expr);
            }
        },
        Expr::Closure { body, .. } => {
            lemma_nests_more((n - 1) as nat, below, *body.expr);
        },
        Expr::VariantCtor { body, .. } => {
            lemma_nests_more((n - 1) as nat, below, *body.expr);
        },
        _ => {},
    }
}

/// The parts of a call.
pub proof fn lemma_call_nests(n: nat, e: Expr)
    requires
        nests(n, e),
        e is FnCall,
    ensures
        args_nest(n, e->FnCall_args@),
        keys_nest(n, e->FnCall_path@),
{
    assert forall|i: int| 0 <= i < e->FnCall_args@.len() implies nests(
        n,
        *(#[trigger] e->FnCall_args@[i]).value.expr,
    ) by {
        lemma_nests_more((n - 1) as nat, n, *e->FnCall_args@[i].value.expr);
    }
    assert forall|i: int| 0 <= i < e->FnCall_path@.len() implies match
        #[trigger] e->FnCall_path@[i] {
        TokenKey::Dynamic(node, _) => nests(n, *node.expr),
        TokenKey::Spread(node) => nests(n, *node.expr),
        _ => true,
    } by {
        match e->FnCall_path@[i] {
            TokenKey::Dynamic(node, _) => {
                lemma_nests_more((n - 1) as nat, n, *node.expr);
            },
            TokenKey::Spread(node) => {
                lemma_nests_more((n - 1) as nat, n, *node.expr);
            },
            _ => {},
        }
    }
}

/// The parts of lists, comprehensions, dictionaries and variants.
pub proof fn lemma_parts_nest(n: nat, e: Expr)
    requires
        nests(n, e),
    ensures
        match e {
            Expr::List(items) => nodes_nest(n, items@),
            Expr::Comprehension { element, iterable, .. } => nests(n, *element.expr) && nests(
                n,
                *iterable.expr,
            ),
            Expr::Dict(pairs) => pairs_nest(n, pairs@),
            Expr::VariantCtor { body, .. } => nests(n, *body.expr),
            _ => true,
        },
{
    let below = (n - 1) as nat;
    match e {
        Expr::List(items) => {
            assert forall|i: int| 0 <= i < items@.len() implies nests(
                n,
                *(#[trigger] items@[i]).expr,
            ) by {
                lemma_nests_more(below, n, *items@[i].expr);
            }
        },
        Expr::Comprehension { element, iterable, .. } => {
            lemma_nests_more(below, n, *element.expr);
            lemma_nests_more(below, n, *iterable.expr);
        },
        Expr::Dict(pairs) => {
            assert forall|i: int| 0 <= i < pairs@.len() implies nests(
                n,
                *(#[trigger] pairs@[i]).1.expr,
            ) by {
                lemma_nests_more(below, n, *pairs@[i].1.expr);
            }
        },
        Expr::VariantCtor { body, .. } => {
            lemma_nests_more(below, n, *body.expr);
        },
        _ => {},
    }
}

/// The body of a closure.
pub proof fn lemma_closure_nests(n: nat, e: Expr)
    requires
        nests(n, e),
        e is Closure,
    ensures
        nests(n, *e->Closure_body.expr),
{
    lemma_nests_more((n - 1) as nat, n, *e->Closure_body.expr);
}

/// The parts of a pipeline nest no deeper than the pipeline.
pub proof fn lemma_chain_nests<'a>(n: nat, e: &'a Expr)
    requires
        nests(n, *e),
    ensures
        chain_of(e) matches Some(c) ==> bounds_nest(n, c.range_args@) && stages_nest(n, c.stages),
    decreases e,
{
    match e {
        Expr::FnCall { path, args } => {
            lemma_call_nests(n, *e);
            if path@.len() == 2 {
                match path@[0] {
                    TokenKey::Dynamic(receiver, _) => {
                        assert(nests(n, *receiver.expr));
                        lemma_chain_nests(n, &*receiver.expr);
                        if args@.len() == 1 {
                            assert(nests(n, *args@[0].value.expr));
                            match *args@[0].value.expr {
                                Expr::Closure { .. } => {
                                    lemma_closure_nests(n, *args@[0].value.expr);
                                },
                                _ => {},
                            }
                        }
                    },
                    _ => {},
                }
            }
        },
        _ => {},
    }
}

/// The arguments of a bare range nest no deeper than it.
pub proof fn lemma_bare_range_nests<'a>(n: nat, e: &'a Expr)
    requires
        nests(n, *e),
    ensures
        bare_range(e) matches Some(args) ==> bounds_nest(n, args@),
{
    match e {
        Expr::FnCall { .. } => {
            lemma_call_nests(n, *e);
        },
        _ => {},
    }
}

/// The parts of a nested range nest no deeper than it.
pub proof fn lemma_nested_map_nests<'a>(n: nat, e: &'a Expr)
    requires
        nests(n, *e),
    ensures
        nested_map(e) matches Some(shape) ==> shape_nests(n, shape),
{
    lemma_chain_nests(n, e);
    match single_map(e) {
        Some((_, _, body)) => {
            let c = chain_of(e)->0;
            assert(nests(n, *c.stages[0].closure_body.expr));
            lemma_chain_nests(n, &*body.expr);
            match chain_of(&*body.expr) {
                Some(d) => {
                    if d.stages.len() == 1 {
                        assert(nests(n, *d.stages[0].closure_body.expr));
                    }
                },
                None => {},
            }
        },
        None => {},
    }
}

proof fn lemma_row_fold_nests(n: nat, e: Expr, row: Seq<char>)
    requires
        nests(n, e),
    ensures
        row_fold(e, row) matches Some(fold) ==> fold_nests(n, fold),
{
    match e {
        Expr::FnCall { path, args } => {
            lemma_call_nests(n, e);
            if args@.len() == 2 {
                assert(nests(n, *args@[0].value.expr));
                assert(nests(n, *args@[1].value.expr));
                match *args@[1].value.expr {
                    Expr::Closure { .. } => {
                        lemma_closure_nests(n, *args@[1].value.expr);
                    },
                    _ => {},
                }
            }
        },
        _ => {},
    }
}

/// What combines the rows nests no deeper than the closure's body.
pub proof fn lemma_outer_combine_nests(n: nat, e: Expr, acc: Seq<char>, row: Seq<char>)
    requires
        nests(n, e),
    ensures
        outer_combine(e, acc, row) matches Some(combine) ==> fold_nests(n, combine.fold),
{
    match e {
        Expr::Binary(_, l, r) => {
            lemma_nests_more((n - 1) as nat, n, *l.expr);
            lemma_nests_more((n - 1) as nat, n, *r.expr);
            lemma_row_fold_nests(n, *l.expr, row);
            lemma_row_fold_nests(n, *r.expr, row);
        },
        _ => {},
    }
}

} // verus!

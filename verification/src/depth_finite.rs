//! Every expression nests some number of levels, and a lowering is nothing but
//! what it gives.

use vstd::prelude::*;

use crate::ast::{CallArg, Expr, Node, TokenKey, TokenRange};
use crate::depth::{alike_forms, lemma_nests_more, nests, nodes_nest};
use crate::depth_calls::lemma_expression_agrees;
use crate::expr::{expr_lowered, ExprEnv, ExprLowering};
use crate::fragment::{Scope, SlotsView};
use crate::list_literal::SpreadView;

verus! {

/// The expression nests some number of levels.
pub open spec fn ends(e: Expr) -> bool {
    exists|n: nat| nests(n, e)
}

/// One number of levels for all of several expressions that each have one.
proof fn lemma_common_depth(exprs: Seq<Expr>) -> (n: nat)
    requires
        forall|i: int| 0 <= i < exprs.len() ==> ends(#[trigger] exprs[i]),
    ensures
        forall|i: int| 0 <= i < exprs.len() ==> nests(n, #[trigger] exprs[i]),
    decreases exprs.len(),
{
    if exprs.len() == 0 {
        0
    } else {
        let rest = exprs.drop_last();
        assert forall|i: int| 0 <= i < rest.len() implies ends(#[trigger] rest[i]) by {
            assert(rest[i] == exprs[i]);
        }
        let a = lemma_common_depth(rest);
        let last = exprs[exprs.len() - 1];
        let b = choose|n: nat| nests(n, last);
        let n = a + b;
        assert forall|i: int| 0 <= i < exprs.len() implies nests(n, #[trigger] exprs[i]) by {
            if i < rest.len() {
                assert(nests(a, rest[i]));
                lemma_nests_more(a, n, exprs[i]);
            } else {
                lemma_nests_more(b, n, exprs[i]);
            }
        }
        n
    }
}

/// The expression in a path segment, if it holds one.
spec fn in_key(key: TokenKey) -> Expr {
    match key {
        TokenKey::Dynamic(node, _) => *node.expr,
        TokenKey::Spread(node) => *node.expr,
        _ => Expr::Wildcard,
    }
}

spec fn in_nodes(nodes: Seq<Node>) -> Seq<Expr> {
    Seq::new(nodes.len(), |i: int| *nodes[i].expr)
}

spec fn in_keys(path: Seq<TokenKey>) -> Seq<Expr> {
    Seq::new(path.len(), |i: int| in_key(path[i]))
}

spec fn in_args(args: Seq<CallArg>) -> Seq<Expr> {
    Seq::new(args.len(), |i: int| *args[i].value.expr)
}

spec fn in_values(pairs: Seq<(TokenKey, Node)>) -> Seq<Expr> {
    Seq::new(pairs.len(), |i: int| *pairs[i].1.expr)
}

spec fn in_arms(arms: Seq<(Node, Node)>) -> Seq<Expr> {
    Seq::new(arms.len(), |i: int| *arms[i].1.expr)
}

/// What stands right below an expression.
spec fn parts(e: Expr) -> Seq<Expr> {
    match e {
        Expr::List(items) => in_nodes(items@),
        Expr::Tuple(items) => in_nodes(items@),
        Expr::FString(items) => in_nodes(items@),
        Expr::Dict(pairs) => in_values(pairs@),
        Expr::Variable(path) => in_keys(path@),
        Expr::Match { expr, arms } => in_arms(arms@).push(*expr.expr),
        Expr::Binary(_, l, r) => seq![*l.expr, *r.expr],
        Expr::Unary(_, operand) => seq![*operand.expr],
        Expr::Ternary { cond, then: yes, els } => seq![*cond.expr, *yes.expr, *els.expr],
        Expr::Where { expr, bindings } => seq![*expr.expr, *bindings.expr],
        Expr::Comprehension { element, iterable, condition, .. } => match condition {
            Some(c) => seq![*element.expr, *iterable.expr, *c.expr],
            None => seq![*element.expr, *iterable.expr],
        },
        Expr::FnCall { path, args } => in_keys(path@) + in_args(args@),
        Expr::Closure { body, .. } => seq![*body.expr],
        Expr::VariantCtor { body, .. } => seq![*body.expr],
        _ => Seq::empty(),
    }
}

/// An expression nests one level more than its parts.
proof fn lemma_nests_above_parts(n: nat, e: Expr)
    requires
        forall|i: int| 0 <= i < parts(e).len() ==> nests(n, #[trigger] parts(e)[i]),
    ensures
        nests(n + 1, e),
{
    let below = parts(e);
    match e {
        Expr::List(items) => {
            assert forall|i: int| 0 <= i < items@.len() implies nests(
                n,
                *(#[trigger] items@[i]).expr,
            ) by {
                assert(nests(n, below[i]));
            }
        },
        Expr::Tuple(items) => {
            assert forall|i: int| 0 <= i < items@.len() implies nests(
                n,
                *(#[trigger] items@[i]).expr,
            ) by {
                assert(nests(n, below[i]));
            }
        },
        Expr::FString(items) => {
            assert forall|i: int| 0 <= i < items@.len() implies nests(
                n,
                *(#[trigger] items@[i]).expr,
            ) by {
                assert(nests(n, below[i]));
            }
        },
        Expr::Dict(pairs) => {
            assert forall|i: int| 0 <= i < pairs@.len() implies nests(
                n,
                *(#[trigger] pairs@[i]).1.expr,
            ) by {
                assert(nests(n, below[i]));
            }
        },
        Expr::Variable(path) => {
            assert forall|i: int| 0 <= i < path@.len() implies nests(
                n,
                in_key(#[trigger] path@[i]),
            ) by {
                assert(nests(n, below[i]));
            }
        },
        Expr::Match { expr, arms } => {
            assert forall|i: int| 0 <= i < arms@.len() implies nests(
                n,
                *(#[trigger] arms@[i]).1.expr,
            ) by {
                assert(nests(n, below[i]));
            }
            assert(nests(n, below[arms@.len() as int]));
        },
        Expr::FnCall { path, args } => {
            assert forall|i: int| 0 <= i < path@.len() implies nests(
                n,
                in_key(#[trigger] path@[i]),
            ) by {
                assert(nests(n, below[i]));
            }
            assert forall|i: int| 0 <= i < args@.len() implies nests(
                n,
                *(#[trigger] args@[i]).value.expr,
            ) by {
                assert(nests(n, below[path@.len() + i]));
            }
        },
        Expr::Binary(..) => {
            assert(nests(n, below[0]) && nests(n, below[1]));
        },
        Expr::Where { .. } => {
            assert(nests(n, below[0]) && nests(n, below[1]));
        },
        Expr::Ternary { .. } => {
            assert(nests(n, below[0]) && nests(n, below[1]) && nests(n, below[2]));
        },
        Expr::Comprehension { condition, .. } => {
            assert(nests(n, below[0]) && nests(n, below[1]));
            if condition is Some {
                assert(nests(n, below[2]));
            }
        },
        Expr::Unary(..) => {
            assert(nests(n, below[0]));
        },
        Expr::Closure { .. } => {
            assert(nests(n, below[0]));
        },
        Expr::VariantCtor { .. } => {
            assert(nests(n, below[0]));
        },
        _ => {},
    }
}

/// Every expression nests some number of levels.
pub proof fn law_nesting_ends(e: Expr)
    ensures
        ends(e),
    decreases e,
{
    let below = parts(e);
    assert forall|i: int| 0 <= i < below.len() implies ends(#[trigger] below[i]) by {
        match e {
            Expr::List(items) => {
                law_nesting_ends(*items@[i].expr);
            },
            Expr::Tuple(items) => {
                law_nesting_ends(*items@[i].expr);
            },
            Expr::FString(items) => {
                law_nesting_ends(*items@[i].expr);
            },
            Expr::Dict(pairs) => {
                law_nesting_ends(*pairs@[i].1.expr);
            },
            Expr::Variable(path) => {
                lemma_key_ends(path@[i]);
            },
            Expr::Match { expr, arms } => {
                if i < arms@.len() {
                    law_nesting_ends(*arms@[i].1.expr);
                } else {
                    law_nesting_ends(*expr.expr);
                }
            },
            Expr::Binary(_, l, r) => {
                law_nesting_ends(*l.expr);
                law_nesting_ends(*r.expr);
            },
            Expr::Unary(_, operand) => {
                law_nesting_ends(*operand.expr);
            },
            Expr::Ternary { cond, then: yes, els } => {
                law_nesting_ends(*cond.expr);
                law_nesting_ends(*yes.expr);
                law_nesting_ends(*els.expr);
            },
            Expr::Where { expr, bindings } => {
                law_nesting_ends(*expr.expr);
                law_nesting_ends(*bindings.expr);
            },
            Expr::Comprehension { element, iterable, condition, .. } => {
                law_nesting_ends(*element.expr);
                law_nesting_ends(*iterable.expr);
                if let Some(c) = condition {
                    law_nesting_ends(*c.expr);
                }
            },
            Expr::FnCall { path, args } => {
                if i < path@.len() {
                    lemma_key_ends(path@[i]);
                } else {
                    law_nesting_ends(*args@[i - path@.len()].value.expr);
                }
            },
            Expr::Closure { body, .. } => {
                law_nesting_ends(*body.expr);
            },
            Expr::VariantCtor { body, .. } => {
                law_nesting_ends(*body.expr);
            },
            _ => {},
        }
    }
    let n = lemma_common_depth(below);
    lemma_nests_above_parts(n, e);
}

proof fn lemma_key_ends(key: TokenKey)
    ensures
        ends(in_key(key)),
    decreases key,
{
    match key {
        TokenKey::Dynamic(node, _) => {
            law_nesting_ends(*node.expr);
        },
        TokenKey::Spread(node) => {
            law_nesting_ends(*node.expr);
        },
        _ => {
            assert(nests(1, in_key(key)));
        },
    }
}

/// One number of levels for all of several expressions.
proof fn lemma_nodes_end(nodes: Seq<Node>) -> (n: nat)
    ensures
        nodes_nest(n, nodes),
{
    let exprs = in_nodes(nodes);
    assert forall|i: int| 0 <= i < exprs.len() implies ends(#[trigger] exprs[i]) by {
        law_nesting_ends(exprs[i]);
    }
    let n = lemma_common_depth(exprs);
    assert forall|i: int| 0 <= i < nodes.len() implies nests(n, *(#[trigger] nodes[i]).expr) by {
        assert(nests(n, exprs[i]));
    }
    n
}

/// Two lowerings that give the same for everything give the same for what is
/// lowered around them.
pub proof fn law_lowering_is_what_it_gives<L: ExprLowering, H: ExprLowering>(
    l: L,
    h: H,
    env: ExprEnv<'_>,
    expr: Expr,
    range: TokenRange,
    scope: Scope<'_>,
    at: SlotsView,
)
    requires
        alike_forms(l, h),
        forall|node: Node, scope: Scope<'_>, at: SlotsView| #[trigger]
            l.lowered(node, scope, at) == h.lowered(node, scope, at),
    ensures
        expr_lowered(l, env, expr, range, scope, at) == expr_lowered(
            h,
            env,
            expr,
            range,
            scope,
            at,
        ),
{
    law_nesting_ends(expr);
    let a = choose|n: nat| nests(n, expr);
    let b = match expr {
        Expr::List(items) => match l.spread(items@, range, scope, at) {
            Some(Ok(SpreadView::Flat(flat))) => lemma_nodes_end(flat),
            _ => 0nat,
        },
        _ => 0nat,
    };
    let n = a + b;
    lemma_nests_more(a, n + 1, expr);
    if let Expr::List(items) = expr {
        if let Some(Ok(SpreadView::Flat(flat))) = l.spread(items@, range, scope, at) {
            assert forall|i: int| 0 <= i < flat.len() implies nests(
                n,
                *(#[trigger] flat[i]).expr,
            ) by {
                lemma_nests_more(b, n, *flat[i].expr);
            }
        }
    }
    lemma_expression_agrees(l, h, n, env, expr, range, scope, at);
}

} // verus!

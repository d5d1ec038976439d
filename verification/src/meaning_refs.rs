//! Which expressions stand inside others, and what follows for references and
//! decorators.

use vstd::prelude::*;

use crate::ast::{key_is, plain_name, CallArg, Decorator, Expr, Node, RefBase, TokenKey};
use crate::decorators::wraps;
use crate::emit_order::{dict_graph, field_keys, key_index, resolved, sibling_names};
use crate::field_refs::{
    arg_edge_names, edge_names, field_base, node_edge_names, noted, reads_param,
};
use crate::names::among;

verus! {

/// The operands of an expression: of an operator, of a conditional, of a list and of
/// a call.
pub open spec fn operands_of(expr: Expr) -> Seq<Node> {
    match expr {
        Expr::Binary(_, a, b) => seq![a, b],
        Expr::Unary(_, n) => seq![n],
        Expr::Ternary { cond, then, els } => seq![cond, then, els],
        Expr::List(items) => items@,
        Expr::FnCall { args, .. } => Seq::new(args@.len(), |i: int| args@[i].value),
        _ => Seq::empty(),
    }
}

/// The expression that is reached from operand to operand.
pub open spec fn at_path(expr: Expr, path: Seq<int>) -> Option<Expr>
    decreases path.len(),
{
    if path.len() == 0 {
        Some(expr)
    } else if 0 <= path[0] < operands_of(expr).len() {
        at_path(*operands_of(expr)[path[0]].expr, path.drop_first())
    } else {
        None
    }
}

/// The reference names a field of its own dictionary.
pub open spec fn names_sibling(expr: Expr, name: Seq<char>) -> bool {
    expr matches Expr::Reference { base, path } && (base == RefBase::Sibling || base
        == RefBase::Root) && path@.len() == 1 && key_is(path@[0], name)
}

/// Such a reference stands somewhere in the expression.
pub open spec fn refers_to(expr: Expr, name: Seq<char>) -> bool {
    exists|path: Seq<int>| (#[trigger] at_path(expr, path)) matches Some(part) && names_sibling(
        part,
        name,
    )
}

/// A read of one of the parameters stands somewhere in the expression.
pub open spec fn reads_some(expr: Expr, params: Seq<String>) -> bool {
    exists|path: Seq<int>| (#[trigger] at_path(expr, path)) matches Some(part) && head_is_one_of(
        part,
        params,
    )
}

/// The variable begins with one of the names.
pub open spec fn head_is_one_of(expr: Expr, params: Seq<String>) -> bool {
    expr matches Expr::Variable(path) && path@.len() > 0 && exists|k: int|
        0 <= k < params.len() && key_is(path@[0], (#[trigger] params[k])@)
}

proof fn lemma_refers_to_part(expr: Expr, k: int, name: Seq<char>)
    requires
        0 <= k < operands_of(expr).len(),
        refers_to(*operands_of(expr)[k].expr, name),
    ensures
        refers_to(expr, name),
{
    let part = *operands_of(expr)[k].expr;
    let path = choose|path: Seq<int>| (#[trigger] at_path(part, path)) matches Some(p)
        && names_sibling(p, name);
    let whole = seq![k] + path;
    assert(whole.drop_first() =~= path);
    assert(at_path(expr, whole) == at_path(part, path));
}

proof fn lemma_refers_inside(expr: Expr, name: Seq<char>) -> (k: int)
    requires
        refers_to(expr, name),
        !names_sibling(expr, name),
    ensures
        0 <= k < operands_of(expr).len(),
        refers_to(*operands_of(expr)[k].expr, name),
{
    let path = choose|path: Seq<int>| (#[trigger] at_path(expr, path)) matches Some(p)
        && names_sibling(p, name);
    assert(at_path(*operands_of(expr)[path[0]].expr, path.drop_first()) == at_path(expr, path));
    path[0]
}

/// The fields that are noted for an expression are those of the dictionary that a
/// reference in it names, wherever it stands.
pub proof fn law_noted_fields_are_those_referred_to(
    expr: Expr,
    names: Seq<String>,
    acc: Seq<Seq<char>>,
    name: Seq<char>,
)
    ensures
        edge_names(expr, names, acc).contains(name) <==> acc.contains(name) || (among(names, name)
            && refers_to(expr, name)),
    decreases expr, 1nat,
{
    let inside = operands_of(expr);
    if refers_to(expr, name) && !names_sibling(expr, name) {
        let k = lemma_refers_inside(expr, name);
    }
    match expr {
        Expr::Reference { base, path } => {
            if names_sibling(expr, name) {
                assert(at_path(expr, Seq::empty()) == Some(expr));
            }
            let found = plain_name(path@);
            if found is Some && field_base(base) && among(names, found->0) {
                lemma_noted(acc, found->0, name);
            }
        },
        Expr::Binary(_, a, b) => {
            assert(inside[0] == a && inside[1] == b);
            let first = edge_names(*a.expr, names, acc);
            law_noted_fields_are_those_referred_to(*a.expr, names, acc, name);
            law_noted_fields_are_those_referred_to(*b.expr, names, first, name);
            if refers_to(*a.expr, name) {
                lemma_refers_to_part(expr, 0, name);
            }
            if refers_to(*b.expr, name) {
                lemma_refers_to_part(expr, 1, name);
            }
        },
        Expr::Unary(_, n) => {
            assert(inside[0] == n);
            law_noted_fields_are_those_referred_to(*n.expr, names, acc, name);
            if refers_to(*n.expr, name) {
                lemma_refers_to_part(expr, 0, name);
            }
        },
        Expr::Ternary { cond, then, els } => {
            assert(inside[0] == cond && inside[1] == then && inside[2] == els);
            let first = edge_names(*cond.expr, names, acc);
            let second = edge_names(*then.expr, names, first);
            law_noted_fields_are_those_referred_to(*cond.expr, names, acc, name);
            law_noted_fields_are_those_referred_to(*then.expr, names, first, name);
            law_noted_fields_are_those_referred_to(*els.expr, names, second, name);
            if refers_to(*cond.expr, name) {
                lemma_refers_to_part(expr, 0, name);
            }
            if refers_to(*then.expr, name) {
                lemma_refers_to_part(expr, 1, name);
            }
            if refers_to(*els.expr, name) {
                lemma_refers_to_part(expr, 2, name);
            }
        },
        Expr::List(items) => {
            lemma_noted_items(items@, names, acc, name);
            assert forall|k: int|
                0 <= k < items@.len() && #[trigger] refers_to(
                    *items@[k].expr,
                    name,
                ) implies refers_to(expr, name) by {
                assert(inside[k] == items@[k]);
                lemma_refers_to_part(expr, k, name);
            }
        },
        Expr::FnCall { args, .. } => {
            lemma_noted_args(args@, names, acc, name);
            assert forall|k: int|
                0 <= k < args@.len() && #[trigger] refers_to(
                    *args@[k].value.expr,
                    name,
                ) implies refers_to(expr, name) by {
                assert(inside[k] == args@[k].value);
                lemma_refers_to_part(expr, k, name);
            }
        },
        _ => {},
    }
}

proof fn lemma_noted(acc: Seq<Seq<char>>, found: Seq<char>, name: Seq<char>)
    ensures
        noted(acc, found).contains(name) <==> acc.contains(name) || found == name,
{
    let more = acc.push(found);
    assert(more.last() == found);
    if acc.contains(name) {
        let k = choose|k: int| 0 <= k < acc.len() && acc[k] == name;
        assert(more[k] == name);
    }
    if more.contains(name) && found != name {
        let k = choose|k: int| 0 <= k < more.len() && more[k] == name;
        assert(acc[k] == name);
    }
    if found == name {
        assert(more[acc.len() as int] == name);
    }
}

proof fn lemma_noted_items(
    items: Seq<Node>,
    names: Seq<String>,
    acc: Seq<Seq<char>>,
    name: Seq<char>,
)
    ensures
        node_edge_names(items, names, acc).contains(name) <==> acc.contains(name) || (among(
            names,
            name,
        ) && exists|k: int| 0 <= k < items.len() && #[trigger] refers_to(*items[k].expr, name)),
    decreases items, 0nat,
{
    if items.len() > 0 {
        let before = items.drop_last();
        lemma_noted_items(before, names, acc, name);
        let first = node_edge_names(before, names, acc);
        law_noted_fields_are_those_referred_to(*items.last().expr, names, first, name);
        if exists|k: int| 0 <= k < before.len() && #[trigger] refers_to(*before[k].expr, name) {
            let k = choose|k: int|
                0 <= k < before.len() && #[trigger] refers_to(*before[k].expr, name);
            assert(items[k] == before[k]);
        }
        if refers_to(*items.last().expr, name) {
            assert(items[items.len() - 1] == items.last());
            assert(refers_to(*items[items.len() - 1].expr, name));
        }
        assert forall|k: int|
            0 <= k < items.len() && #[trigger] refers_to(*items[k].expr, name) implies (k
            == items.len() - 1 || refers_to(*before[k].expr, name)) by {}
    }
}

proof fn lemma_noted_args(
    args: Seq<CallArg>,
    names: Seq<String>,
    acc: Seq<Seq<char>>,
    name: Seq<char>,
)
    ensures
        arg_edge_names(args, names, acc).contains(name) <==> acc.contains(name) || (among(
            names,
            name,
        ) && exists|k: int| 0 <= k < args.len() && #[trigger] refers_to(
            *args[k].value.expr,
            name,
        )),
    decreases args, 0nat,
{
    if args.len() > 0 {
        let before = args.drop_last();
        lemma_noted_args(before, names, acc, name);
        let first = arg_edge_names(before, names, acc);
        law_noted_fields_are_those_referred_to(*args.last().value.expr, names, first, name);
        if exists|k: int|
            0 <= k < before.len() && #[trigger] refers_to(*before[k].value.expr, name) {
            let k = choose|k: int|
                0 <= k < before.len() && #[trigger] refers_to(*before[k].value.expr, name);
            assert(args[k] == before[k]);
        }
        if refers_to(*args.last().value.expr, name) {
            assert(args[args.len() - 1] == args.last());
            assert(refers_to(*args[args.len() - 1].value.expr, name));
        }
        assert forall|k: int|
            0 <= k < args.len() && #[trigger] refers_to(*args[k].value.expr, name) implies (k
            == args.len() - 1 || refers_to(*before[k].value.expr, name)) by {}
    }
}

/// An expression reads a parameter where a variable that begins with the name of one
/// stands somewhere in it.
pub proof fn law_parameter_reads_are_found(expr: Expr, params: Seq<String>)
    ensures
        reads_param(expr, params) <==> reads_some(expr, params),
    decreases expr, 1nat,
{
    let inside = operands_of(expr);
    assert(at_path(expr, Seq::empty()) == Some(expr));
    if reads_some(expr, params) && !head_is_one_of(expr, params) {
        let path = choose|path: Seq<int>| (#[trigger] at_path(expr, path)) matches Some(p)
            && head_is_one_of(p, params);
        let part = *inside[path[0]].expr;
        assert(at_path(part, path.drop_first()) == at_path(expr, path));
        assert(reads_some(part, params));
    }
    assert forall|k: int|
        0 <= k < inside.len() && #[trigger] reads_some(
            *inside[k].expr,
            params,
        ) implies reads_some(expr, params) by {
        let part = *inside[k].expr;
        let path = choose|path: Seq<int>| (#[trigger] at_path(part, path)) matches Some(p)
            && head_is_one_of(p, params);
        let whole = seq![k] + path;
        assert(whole.drop_first() =~= path);
        assert(at_path(expr, whole) == at_path(part, path));
    }
    match expr {
        Expr::Binary(_, a, b) => {
            assert(inside[0] == a && inside[1] == b);
            law_parameter_reads_are_found(*a.expr, params);
            law_parameter_reads_are_found(*b.expr, params);
        },
        Expr::Unary(_, n) => {
            assert(inside[0] == n);
            law_parameter_reads_are_found(*n.expr, params);
        },
        Expr::Ternary { cond, then, els } => {
            assert(inside[0] == cond && inside[1] == then && inside[2] == els);
            law_parameter_reads_are_found(*cond.expr, params);
            law_parameter_reads_are_found(*then.expr, params);
            law_parameter_reads_are_found(*els.expr, params);
        },
        Expr::List(items) => {
            assert(decreases_to!(expr => items@));
            assert forall|k: int| 0 <= k < items@.len() implies reads_param(
                *(#[trigger] items@[k]).expr,
                params,
            ) == reads_some(*items@[k].expr, params) by {
                law_parameter_reads_are_found(*items@[k].expr, params);
            }
        },
        Expr::FnCall { args, .. } => {
            assert forall|k: int| 0 <= k < args@.len() implies reads_param(
                *(#[trigger] args@[k]).value.expr,
                params,
            ) == reads_some(*args@[k].value.expr, params) && inside[k] == args@[k].value by {
                law_parameter_reads_are_found(*args@[k].value.expr, params);
            }
        },
        _ => {},
    }
}

// ---------------------------------------------------------------------------
// The graph of a dictionary.
// ---------------------------------------------------------------------------

/// The first entry of the name.
pub open spec fn first_entry(pairs: Seq<(TokenKey, Node)>, name: Seq<char>, j: int) -> bool {
    &&& 0 <= j < pairs.len()
    &&& key_is(pairs[j].0, name)
    &&& forall|k: int| 0 <= k < j ==> !key_is((#[trigger] pairs[k]).0, name)
}

proof fn lemma_key_index(pairs: Seq<(TokenKey, Node)>, name: Seq<char>, from: int)
    requires
        0 <= from,
        forall|k: int| 0 <= k < from && k < pairs.len() ==> !key_is((#[trigger] pairs[k]).0, name),
    ensures
        match key_index(pairs, name, from) {
            Some(j) => first_entry(pairs, name, j),
            None => forall|k: int| 0 <= k < pairs.len() ==> !key_is((#[trigger] pairs[k]).0, name),
        },
    decreases pairs.len() - from,
{
    if from < pairs.len() && !key_is(pairs[from].0, name) {
        lemma_key_index(pairs, name, from + 1);
    }
}

proof fn lemma_resolved(pairs: Seq<(TokenKey, Node)>, names: Seq<Seq<char>>, j: int)
    ensures
        resolved(pairs, names).contains(j) <==> exists|name: Seq<char>|
            names.contains(name) && #[trigger] first_entry(pairs, name, j),
    decreases names.len(),
{
    let all = resolved(pairs, names);
    if names.len() > 0 {
        let before = names.drop_last();
        let rest = resolved(pairs, before);
        let last = names.last();
        lemma_resolved(pairs, before, j);
        lemma_key_index(pairs, last, 0);
        assert(names[names.len() - 1] == last);
        assert forall|name: Seq<char>| #[trigger] names.contains(name) implies before.contains(name)
            || name == last by {
            let k = choose|k: int| 0 <= k < names.len() && names[k] == name;
            if k < before.len() {
                assert(before[k] == name);
            }
        }
        assert forall|name: Seq<char>| #[trigger] before.contains(name) implies names.contains(
            name,
        ) by {
            let k = choose|k: int| 0 <= k < before.len() && before[k] == name;
            assert(names[k] == name);
        }
        if let Some(i) = key_index(pairs, last, 0) {
            assert(all == rest.push(i));
            assert(all[rest.len() as int] == i);
            if rest.contains(j) {
                let k = choose|k: int| 0 <= k < rest.len() && rest[k] == j;
                assert(all[k] == j);
            }
            if all.contains(j) && i != j {
                let k = choose|k: int| 0 <= k < all.len() && all[k] == j;
                assert(rest[k] == j);
            }
            if first_entry(pairs, last, j) {
                assert(i == j) by {
                    if i < j {
                        assert(!key_is(pairs[i].0, last));
                    } else if j < i {
                        assert(!key_is(pairs[j].0, last));
                    }
                }
            }
        }
    }
}

proof fn lemma_field_keys(pairs: Seq<(TokenKey, Node)>, name: Seq<char>)
    ensures
        among(field_keys(pairs), name) <==> exists|k: int|
            0 <= k < pairs.len() && key_is((#[trigger] pairs[k]).0, name),
    decreases pairs.len(),
{
    if pairs.len() > 0 {
        let before = pairs.drop_last();
        lemma_field_keys(before, name);
        let rest = field_keys(before);
        let all = field_keys(pairs);
        assert(pairs[pairs.len() - 1] == pairs.last());
        assert forall|k: int| 0 <= k < before.len() implies before[k] == #[trigger] pairs[k] by {}
        if let TokenKey::String(s, _, _) = pairs.last().0 {
            assert(all == rest.push(s));
            assert(all[rest.len() as int] == s);
            assert forall|k: int| 0 <= k < rest.len() implies rest[k] == #[trigger] all[k] by {}
            if among(rest, name) {
                let k = choose|k: int| 0 <= k < rest.len() && (#[trigger] rest[k])@ == name;
                assert(all[k]@ == name);
            }
            if among(all, name) && s@ != name {
                let k = choose|k: int| 0 <= k < all.len() && (#[trigger] all[k])@ == name;
                assert(rest[k]@ == name);
            }
        }
        if exists|k: int| 0 <= k < before.len() && key_is((#[trigger] before[k]).0, name) {
            let k = choose|k: int| 0 <= k < before.len() && key_is((#[trigger] before[k]).0, name);
            assert(key_is(pairs[k].0, name));
        }
        if exists|k: int| 0 <= k < pairs.len() && key_is((#[trigger] pairs[k]).0, name) {
            let k = choose|k: int| 0 <= k < pairs.len() && key_is((#[trigger] pairs[k]).0, name);
            if k < before.len() {
                assert(key_is(before[k].0, name));
            }
        }
    }
}

/// An entry of a dictionary depends on another one exactly where its value refers to
/// a field by a name that the other entry is the first to bear.
pub proof fn law_graph_follows_the_references(pairs: Seq<(TokenKey, Node)>, i: int, j: int)
    requires
        0 <= i < pairs.len(),
    ensures
        dict_graph(pairs).len() == pairs.len(),
        dict_graph(pairs)[i].contains(j) <==> exists|name: Seq<char>|
            refers_to(*pairs[i].1.expr, name) && #[trigger] first_entry(pairs, name, j),
{
    let names = sibling_names(pairs, i);
    let none = Seq::<Seq<char>>::empty();
    lemma_resolved(pairs, names, j);
    assert forall|name: Seq<char>| #[trigger] first_entry(pairs, name, j) implies names.contains(
        name,
    ) == refers_to(*pairs[i].1.expr, name) by {
        law_noted_fields_are_those_referred_to(
            *pairs[i].1.expr,
            field_keys(pairs),
            none,
            name,
        );
        lemma_field_keys(pairs, name);
        assert(key_is(pairs[j].0, name));
    }
}

// ---------------------------------------------------------------------------
// Decorators.
// ---------------------------------------------------------------------------

/// What is reached through the first arguments of `k` calls.
pub open spec fn under(node: Node, k: nat) -> Option<Node>
    decreases k,
{
    if k == 0 {
        Some(node)
    } else {
        match *node.expr {
            Expr::FnCall { args, .. } => if args@.len() > 0 {
                under(args@[0].value, (k - 1) as nat)
            } else {
                None
            },
            _ => None,
        }
    }
}

/// A decorated value is written as calls, the first decorator outermost: each calls
/// what its decorator names, on what it decorates and then its own arguments; under
/// all of them stands the value.
pub proof fn law_decorators_apply_from_the_last(
    node: Node,
    value: Node,
    decs: Seq<Decorator>,
    k: nat,
)
    requires
        wraps(node, value, decs),
        k <= decs.len(),
    ensures
        under(node, k) matches Some(inner) && if k < decs.len() {
            *inner.expr matches Expr::FnCall { path, args } && path == decs[k as int].path
                && args@.len() > 0 && args@[0].name is None && args@.skip(1)
                == decs[k as int].args@
        } else {
            inner.expr == value.expr
        },
    decreases k,
{
    if k > 0 {
        if let Expr::FnCall { args, .. } = *node.expr {
            law_decorators_apply_from_the_last(
                args@[0].value,
                value,
                decs.drop_first(),
                (k - 1) as nat,
            );
            if k < decs.len() {
                assert(decs.drop_first()[k - 1] == decs[k as int]);
            }
        }
    } else if decs.len() > 0 {
        if let Expr::FnCall { args, .. } = *node.expr {
            assert(args@.skip(1) =~= args@.drop_first());
        }
    }
}

} // verus!

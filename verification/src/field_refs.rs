//! References between the fields of a returned dictionary.

use vstd::prelude::*;

use crate::ast::{plain_name, single_name, CallArg, Expr, Node, RefBase, TokenKey};
use crate::ir::texts;
use crate::names::{among, is_among};

verus! {

/// Appends a name unless it is already there.
pub open spec fn noted(acc: Seq<Seq<char>>, name: Seq<char>) -> Seq<Seq<char>> {
    if acc.contains(name) {
        acc
    } else {
        acc.push(name)
    }
}

/// The base of a reference to a field of the same dictionary. At the top of a
/// document the siblings are the fields of the root.
pub open spec fn field_base(base: RefBase) -> bool {
    base == RefBase::Sibling || base == RefBase::Root
}

/// The fields among `names` that an expression refers to, behind those in
/// `acc`, in order of first appearance.
pub open spec fn edge_names(expr: Expr, names: Seq<String>, acc: Seq<Seq<char>>) -> Seq<Seq<char>>
    decreases expr, 1nat,
{
    match expr {
        Expr::Reference { base, path } => match plain_name(path@) {
            Some(n) => if field_base(base) && among(names, n) {
                noted(acc, n)
            } else {
                acc
            },
            None => acc,
        },
        Expr::Binary(_, a, b) => edge_names(*b.expr, names, edge_names(*a.expr, names, acc)),
        Expr::Unary(_, n) => edge_names(*n.expr, names, acc),
        Expr::Ternary { cond, then, els } => edge_names(
            *els.expr,
            names,
            edge_names(*then.expr, names, edge_names(*cond.expr, names, acc)),
        ),
        Expr::List(items) => node_edge_names(items@, names, acc),
        Expr::FnCall { args, .. } => arg_edge_names(args@, names, acc),
        _ => acc,
    }
}

/// [`edge_names`] over the elements of a list.
pub open spec fn node_edge_names(items: Seq<Node>, names: Seq<String>, acc: Seq<Seq<char>>) -> Seq<
    Seq<char>,
>
    decreases items, 0nat,
{
    if items.len() == 0 {
        acc
    } else {
        edge_names(*items.last().expr, names, node_edge_names(items.drop_last(), names, acc))
    }
}

/// [`edge_names`] over the arguments of a call.
pub open spec fn arg_edge_names(args: Seq<CallArg>, names: Seq<String>, acc: Seq<Seq<char>>) -> Seq<
    Seq<char>,
>
    decreases args, 0nat,
{
    if args.len() == 0 {
        acc
    } else {
        edge_names(*args.last().value.expr, names, arg_edge_names(args.drop_last(), names, acc))
    }
}

fn note(out: &mut Vec<String>, name: &String)
    ensures
        texts(final(out)@) == noted(texts(old(out)@), name@),
{
    let seen = is_among(out, name.as_str());
    proof {
        if seen {
            let k = choose|k: int| 0 <= k < out@.len() && (#[trigger] out@[k])@ == name@;
            assert(texts(out@)[k] == name@);
        } else if texts(out@).contains(name@) {
            let k = choose|k: int| 0 <= k < out@.len() && #[trigger] texts(out@)[k] == name@;
            assert(out@[k]@ == name@);
        }
    }
    if !seen {
        out.push(name.clone());
        assert(texts(out@) =~= texts(old(out)@).push(name@));
    }
}

/// Notes the fields that an expression refers to.
pub fn collect_anon_dict_ref_edges(expr: &Expr, field_names: &Vec<String>, out: &mut Vec<String>)
    ensures
        texts(final(out)@) == edge_names(*expr, field_names@, texts(old(out)@)),
    decreases expr, 1nat,
{
    match expr {
        Expr::Reference { base, path } => match single_name(path) {
            Some(n) => {
                if (*base == RefBase::Sibling || *base == RefBase::Root) && is_among(
                    field_names,
                    n.as_str(),
                ) {
                    note(out, n);
                }
            },
            None => {},
        },
        Expr::Binary(_, a, b) => {
            collect_anon_dict_ref_edges(&*a.expr, field_names, out);
            collect_anon_dict_ref_edges(&*b.expr, field_names, out);
        },
        Expr::Unary(_, n) => collect_anon_dict_ref_edges(&*n.expr, field_names, out),
        Expr::Ternary { cond, then, els } => {
            collect_anon_dict_ref_edges(&*cond.expr, field_names, out);
            collect_anon_dict_ref_edges(&*then.expr, field_names, out);
            collect_anon_dict_ref_edges(&*els.expr, field_names, out);
        },
        Expr::List(items) => collect_node_edges(items, field_names, out),
        Expr::FnCall { args, .. } => collect_arg_edges(args, field_names, out),
        _ => {},
    }
}

fn collect_node_edges(items: &Vec<Node>, field_names: &Vec<String>, out: &mut Vec<String>)
    ensures
        texts(final(out)@) == node_edge_names(items@, field_names@, texts(old(out)@)),
    decreases items, 0nat,
{
    let mut i: usize = 0;
    assert(items@.take(0) =~= Seq::empty());
    while i < items.len()
        invariant
            i <= items.len(),
            texts(out@) == node_edge_names(
                items@.take(i as int),
                field_names@,
                texts(old(out)@),
            ),
        decreases items.len() - i,
    {
        assert(items@.take(i + 1).drop_last() =~= items@.take(i as int));
        assert(items@.take(i + 1).last() == items@[i as int]);
        assert(decreases_to!(*items => items@));
        collect_anon_dict_ref_edges(&*items[i].expr, field_names, out);
        i += 1;
    }
    assert(items@.take(items@.len() as int) =~= items@);
}

fn collect_arg_edges(args: &Vec<CallArg>, field_names: &Vec<String>, out: &mut Vec<String>)
    ensures
        texts(final(out)@) == arg_edge_names(args@, field_names@, texts(old(out)@)),
    decreases args, 0nat,
{
    let mut i: usize = 0;
    assert(args@.take(0) =~= Seq::empty());
    while i < args.len()
        invariant
            i <= args.len(),
            texts(out@) == arg_edge_names(args@.take(i as int), field_names@, texts(old(out)@)),
        decreases args.len() - i,
    {
        assert(args@.take(i + 1).drop_last() =~= args@.take(i as int));
        assert(args@.take(i + 1).last() == args@[i as int]);
        assert(decreases_to!(*args => args@));
        collect_anon_dict_ref_edges(&*args[i].value.expr, field_names, out);
        i += 1;
    }
    assert(args@.take(args@.len() as int) =~= args@);
}

/// Whether an expression reads an entry parameter: a variable whose head is one.
pub open spec fn reads_param(expr: Expr, params: Seq<String>) -> bool
    decreases expr, 1nat,
{
    match expr {
        Expr::Variable(path) => path@.len() > 0 && head_among(path@[0], params),
        Expr::Binary(_, a, b) => reads_param(*a.expr, params) || reads_param(*b.expr, params),
        Expr::Unary(_, n) => reads_param(*n.expr, params),
        Expr::Ternary { cond, then, els } => reads_param(*cond.expr, params) || reads_param(
            *then.expr,
            params,
        ) || reads_param(*els.expr, params),
        Expr::List(items) => exists|i: int|
            0 <= i < items@.len() && reads_param(*(#[trigger] items@[i]).expr, params),
        Expr::FnCall { args, .. } => exists|i: int|
            0 <= i < args@.len() && reads_param(*(#[trigger] args@[i]).value.expr, params),
        _ => false,
    }
}

/// The segment is one of the given names.
pub open spec fn head_among(key: TokenKey, params: Seq<String>) -> bool {
    match key {
        TokenKey::String(s, _, _) => among(params, s@),
        _ => false,
    }
}

/// Executable form of [`reads_param`].
pub fn expr_reads_main_param(expr: &Expr, main_param_names: &Vec<String>) -> (r: bool)
    ensures
        r == reads_param(*expr, main_param_names@),
    decreases expr, 1nat,
{
    match expr {
        Expr::Variable(path) => if path.len() > 0 {
            match &path[0] {
                TokenKey::String(s, _, _) => is_among(main_param_names, s.as_str()),
                _ => false,
            }
        } else {
            false
        },
        Expr::Binary(_, a, b) => expr_reads_main_param(&*a.expr, main_param_names)
            || expr_reads_main_param(&*b.expr, main_param_names),
        Expr::Unary(_, n) => expr_reads_main_param(&*n.expr, main_param_names),
        Expr::Ternary { cond, then, els } => expr_reads_main_param(&*cond.expr, main_param_names)
            || expr_reads_main_param(&*then.expr, main_param_names) || expr_reads_main_param(
            &*els.expr,
            main_param_names,
        ),
        Expr::List(items) => {
            assert(decreases_to!(*expr => expr->List_0));
            let mut i: usize = 0;
            while i < items.len()
                invariant
                    i <= items.len(),
                    *items == expr->List_0,
                    *expr is List,
                    decreases_to!(*expr => expr->List_0),
                    forall|k: int|
                        0 <= k < i ==> !reads_param(
                            *(#[trigger] items@[k]).expr,
                            main_param_names@,
                        ),
                decreases items.len() - i,
            {
                assert(decreases_to!(expr->List_0 => items@));
                if expr_reads_main_param(&*items[i].expr, main_param_names) {
                    return true;
                }
                i += 1;
            }
            false
        },
        Expr::FnCall { args, .. } => {
            assert(decreases_to!(*expr => expr->FnCall_args));
            let mut i: usize = 0;
            while i < args.len()
                invariant
                    i <= args.len(),
                    *args == expr->FnCall_args,
                    *expr is FnCall,
                    decreases_to!(*expr => expr->FnCall_args),
                    forall|k: int|
                        0 <= k < i ==> !reads_param(
                            *(#[trigger] args@[k]).value.expr,
                            main_param_names@,
                        ),
                decreases args.len() - i,
            {
                assert(decreases_to!(expr->FnCall_args => args@));
                if expr_reads_main_param(&*args[i].value.expr, main_param_names) {
                    return true;
                }
                i += 1;
            }
            false
        },
        _ => false,
    }
}

} // verus!

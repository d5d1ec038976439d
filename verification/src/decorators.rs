//! Decorated fields, rewritten as calls.
//!
//! `@deco(a, b) k: v` becomes `k: deco(v, a, b)`. Of several decorators the one
//! nearest the value is applied first.

use vstd::prelude::*;

use crate::ast::{
    all_positional, plain_name, positional_only, single_name, CallArg, Decorator, Expr, Node,
    TokenKey,
};
use crate::error::{unsupported, ErrorView, LoweringError};
use crate::text::{join3, text_is};

verus! {

/// Decorators with a meaning of their own, which no call can express.
pub open spec fn builtin_decorator(name: Seq<char>) -> bool {
    ||| name == "value"@
    ||| name == "expect"@
    ||| name == "msg"@
    ||| name == "error"@
    ||| name == "default"@
}

fn is_builtin_decorator(name: &String) -> (r: bool)
    ensures
        r == builtin_decorator(name@),
{
    text_is(name, "value") || text_is(name, "expect") || text_is(name, "msg") || text_is(
        name,
        "error",
    ) || text_is(name, "default")
}

/// Why a decorator cannot be written as a call.
pub open spec fn decorator_error(dec: Decorator) -> Option<ErrorView> {
    match plain_name(dec.path@) {
        None => Some(
            ErrorView::UnsupportedExpr {
                kind: "field decorator with multi-segment / dynamic path"@,
                range: dec.range,
            },
        ),
        Some(name) => if builtin_decorator(name) {
            Some(
                ErrorView::UnsupportedExpr {
                    kind: "builtin `@"@ + name + "` decorator has no compiled call form"@,
                    range: dec.range,
                },
            )
        } else if !all_positional(dec.args@) {
            Some(
                ErrorView::UnsupportedExpr {
                    kind: "field decorator `@"@ + name + "` with a named argument"@,
                    range: dec.range,
                },
            )
        } else {
            None
        },
    }
}

fn check_decorator(dec: &Decorator) -> (r: Result<(), LoweringError>)
    ensures
        match r {
            Ok(_) => decorator_error(*dec) is None,
            Err(e) => decorator_error(*dec) == Some(e@),
        },
{
    match single_name(&dec.path) {
        None => Err(unsupported("field decorator with multi-segment / dynamic path", dec.range)),
        Some(name) => if is_builtin_decorator(name) {
            Err(
                LoweringError::UnsupportedExpr {
                    kind: join3(
                        "builtin `@",
                        name.as_str(),
                        "` decorator has no compiled call form",
                    ),
                    range: dec.range,
                },
            )
        } else if !positional_only(&dec.args) {
            Err(
                LoweringError::UnsupportedExpr {
                    kind: join3("field decorator `@", name.as_str(), "` with a named argument"),
                    range: dec.range,
                },
            )
        } else {
            Ok(())
        },
    }
}

/// The error of the decorator nearest the value that has one.
pub open spec fn bad_decorator(decs: Seq<Decorator>) -> Option<ErrorView>
    decreases decs.len(),
{
    if decs.len() == 0 {
        None
    } else {
        match decorator_error(decs.last()) {
            Some(e) => Some(e),
            None => bad_decorator(decs.drop_last()),
        }
    }
}

/// The node has neither directives nor a type hint.
pub open spec fn bare(node: Node) -> bool {
    node.directives@.len() == 0 && node.type_hint is None
}

/// The node is the value with the decorators applied to it as calls, the last
/// one innermost, and bears no decorator itself.
pub open spec fn wraps(node: Node, value: Node, decs: Seq<Decorator>) -> bool
    decreases decs.len(),
{
    &&& node.decorators@.len() == 0
    &&& if decs.len() == 0 {
        node.expr == value.expr && node.range == value.range
    } else {
        let dec = decs[0];
        &&& node.range == dec.range
        &&& match *node.expr {
            Expr::FnCall { path, args } => {
                &&& path == dec.path
                &&& args@.len() == dec.args@.len() + 1
                &&& args@[0].name is None
                &&& bare(args@[0].value)
                &&& wraps(args@[0].value, value, decs.drop_first())
                &&& args@.drop_first() == dec.args@
            },
            _ => false,
        }
    }
}

/// The node is the decorated value written as calls, with the directives and
/// the type hint of the value.
pub open spec fn desugared(value: Node, node: Node) -> bool {
    &&& wraps(node, value, value.decorators@)
    &&& node.directives == value.directives
    &&& node.type_hint == value.type_hint
}

/// Rewrites a decorated value as calls.
pub fn desugar_field_decorators(value: Node) -> (r: Result<Node, LoweringError>)
    ensures
        match r {
            Ok(node) => bad_decorator(value.decorators@) is None && desugared(value, node),
            Err(e) => bad_decorator(value.decorators@) == Some(e@),
        },
{
    let ghost whole = value;
    let Node { expr, range, directives, decorators, type_hint } = value;
    let ghost decs = decorators@;
    let mut rest: Vec<Decorator> = decorators;
    let mut current: Node = Node {
        expr,
        range,
        directives: Vec::new(),
        decorators: Vec::new(),
        type_hint: None,
    };
    assert(decs.skip(decs.len() as int) =~= Seq::empty());
    assert(decs.take(decs.len() as int) =~= decs);
    while rest.len() > 0
        invariant
            rest@.len() <= decs.len(),
            rest@ == decs.take(rest@.len() as int),
            decs == whole.decorators@,
            whole == value,
            bad_decorator(decs) == bad_decorator(rest@),
            bare(current),
            wraps(current, whole, decs.skip(rest@.len() as int)),
        ensures
            rest@.len() == 0,
        decreases rest@.len(),
    {
        let ghost n = rest@.len() as int;
        let dec: Decorator = match rest.pop() {
            Some(d) => d,
            None => {
                break;
            },
        };
        assert(dec == decs[n - 1]);
        assert(decs.take(n).drop_last() =~= decs.take(n - 1));
        assert(decs.skip(n - 1)[0] == dec);
        assert(decs.skip(n - 1).drop_first() =~= decs.skip(n));
        match check_decorator(&dec) {
            Err(e) => {
                return Err(e);
            },
            Ok(_) => {},
        }
        let Decorator { path, args, range: at } = dec;
        let mut own: Vec<CallArg> = args;
        let mut call_args: Vec<CallArg> = Vec::new();
        call_args.push(CallArg { name: None, value: current });
        call_args.append(&mut own);
        assert(call_args@.drop_first() =~= args@);
        current = Node {
            expr: Box::new(Expr::FnCall { path, args: call_args }),
            range: at,
            directives: Vec::new(),
            decorators: Vec::new(),
            type_hint: None,
        };
    }
    assert(decs.skip(0) =~= decs);
    let ghost inner = current;
    let Node { expr: outer, range: at, decorators: none, .. } = current;
    let node: Node = Node { expr: outer, range: at, directives, decorators: none, type_hint };
    proof {
        lemma_wraps_ignores_annotations(inner, node, whole, decs);
    }
    Ok(node)
}

/// What is wrapped does not depend on directives and type hint.
proof fn lemma_wraps_ignores_annotations(a: Node, b: Node, value: Node, decs: Seq<Decorator>)
    requires
        a.expr == b.expr,
        a.range == b.range,
        a.decorators == b.decorators,
        wraps(a, value, decs),
    ensures
        wraps(b, value, decs),
{
}

/// The error of the first field at or behind `from` that has one.
pub open spec fn bad_field_decorator(pairs: Seq<(TokenKey, Node)>, from: int) -> Option<ErrorView>
    decreases pairs.len() - from,
{
    if from < 0 || from >= pairs.len() {
        None
    } else {
        match bad_decorator(pairs[from].1.decorators@) {
            Some(e) => Some(e),
            None => bad_field_decorator(pairs, from + 1),
        }
    }
}

/// The field has been rewritten if it was decorated, and is unchanged if not.
pub open spec fn field_desugared(before: (TokenKey, Node), after: (TokenKey, Node)) -> bool {
    &&& after.0 == before.0
    &&& if before.1.decorators@.len() == 0 {
        after.1 == before.1
    } else {
        desugared(before.1, after.1)
    }
}

/// No field is decorated.
pub open spec fn undecorated(pairs: Seq<(TokenKey, Node)>) -> bool {
    forall|i: int| 0 <= i < pairs.len() ==> (#[trigger] pairs[i]).1.decorators@.len() == 0
}

fn none_decorated(pairs: &Vec<(TokenKey, Node)>) -> (r: bool)
    ensures
        r == undecorated(pairs@),
{
    let mut i: usize = 0;
    while i < pairs.len()
        invariant
            i <= pairs@.len(),
            forall|k: int| 0 <= k < i ==> (#[trigger] pairs@[k]).1.decorators@.len() == 0,
        decreases pairs@.len() - i,
    {
        if pairs[i].1.decorators.len() != 0 {
            assert(pairs@[i as int].1.decorators@.len() != 0);
            return false;
        }
        i += 1;
    }
    true
}

/// A dictionary body and whether it was rewritten.
pub struct Desugared {
    pub root: Node,
    pub changed: bool,
}

/// The fields of a dictionary literal.
pub open spec fn dict_pairs(node: Node) -> Option<Seq<(TokenKey, Node)>> {
    match *node.expr {
        Expr::Dict(pairs) => Some(pairs@),
        _ => None,
    }
}

/// The body differs from the one before only in its decorated fields.
pub open spec fn body_desugared(before: Node, after: Node) -> bool {
    &&& after.range == before.range
    &&& after.directives == before.directives
    &&& after.decorators == before.decorators
    &&& after.type_hint == before.type_hint
    &&& (dict_pairs(before) matches Some(old_pairs) && (dict_pairs(after) matches Some(new_pairs)
        && new_pairs.len() == old_pairs.len() && forall|i: int|
        0 <= i < old_pairs.len() ==> #[trigger] field_desugared(old_pairs[i], new_pairs[i])))
}

/// A body that is no dictionary, or has no decorated field, stays as it is.
pub open spec fn nothing_to_desugar(root: Node) -> bool {
    match dict_pairs(root) {
        Some(pairs) => undecorated(pairs),
        None => true,
    }
}

/// Rewrites the decorated fields of a dictionary body as calls.
pub fn desugar_anon_dict_decorators(root: Node) -> (r: Result<Desugared, LoweringError>)
    ensures
        match r {
            Ok(d) => if nothing_to_desugar(root) {
                !d.changed && d.root == root
            } else {
                d.changed && body_desugared(root, d.root) && bad_field_decorator(
                    dict_pairs(root)->0,
                    0,
                ) is None
            },
            Err(e) => !nothing_to_desugar(root) && bad_field_decorator(
                dict_pairs(root)->0,
                0,
            ) == Some(e@),
        },
{
    let ghost whole = root;
    let plain: bool = match &*root.expr {
        Expr::Dict(pairs) => none_decorated(pairs),
        _ => true,
    };
    if plain {
        return Ok(Desugared { root, changed: false });
    }
    let Node { expr, range, directives, decorators, type_hint } = root;
    let mut pairs: Vec<(TokenKey, Node)> = match *expr {
        Expr::Dict(pairs) => pairs,
        _ => Vec::new(),
    };
    let ghost all = pairs@;
    assert(dict_pairs(whole) == Some(all));
    let mut out: Vec<(TokenKey, Node)> = Vec::new();
    assert(all.skip(0) =~= all);
    while pairs.len() > 0
        invariant
            dict_pairs(whole) == Some(all),
            whole == root,
            !nothing_to_desugar(whole),
            out@.len() + pairs@.len() == all.len(),
            pairs@ == all.skip(out@.len() as int),
            forall|i: int|
                0 <= i < out@.len() ==> #[trigger] field_desugared(all[i], out@[i]),
            bad_field_decorator(all, 0) == bad_field_decorator(all, out@.len() as int),
        decreases pairs@.len(),
    {
        let ghost at = out@.len() as int;
        let (key, value) = pairs.remove(0);
        assert(all[at] == (key, value));
        assert(pairs@ =~= all.skip(at + 1));
        let done: Node = if value.decorators.len() == 0 {
            assert(bad_decorator(value.decorators@) is None);
            value
        } else {
            match desugar_field_decorators(value) {
                Err(e) => {
                    return Err(e);
                },
                Ok(n) => n,
            }
        };
        let ghost before = out@;
        out.push((key, done));
        assert forall|i: int| 0 <= i < out@.len() implies #[trigger] field_desugared(
            all[i],
            out@[i],
        ) by {
            if i < at {
                assert(field_desugared(all[i], before[i]));
            }
        }
    }
    Ok(
        Desugared {
            root: Node {
                expr: Box::new(Expr::Dict(out)),
                range,
                directives,
                decorators,
                type_hint,
            },
            changed: true,
        },
    )
}

/// After the rewriting no field is decorated.
pub proof fn law_no_decorator_left(before: Node, after: Node)
    requires
        body_desugared(before, after),
    ensures
        nothing_to_desugar(after),
{
    let old_pairs = dict_pairs(before)->0;
    let new_pairs = dict_pairs(after)->0;
    assert forall|i: int| 0 <= i < new_pairs.len() implies (
    #[trigger] new_pairs[i]).1.decorators@.len() == 0 by {
        assert(field_desugared(old_pairs[i], new_pairs[i]));
    }
}

/// The keys, their order, and the directives of every field stay.
pub proof fn law_desugaring_keeps_fields(before: Node, after: Node, i: int)
    requires
        body_desugared(before, after),
        0 <= i < dict_pairs(before)->0.len(),
    ensures
        dict_pairs(after)->0.len() == dict_pairs(before)->0.len(),
        dict_pairs(after)->0[i].0 == dict_pairs(before)->0[i].0,
        dict_pairs(after)->0[i].1.directives == dict_pairs(before)->0[i].1.directives,
        dict_pairs(after)->0[i].1.type_hint == dict_pairs(before)->0[i].1.type_hint,
{
    assert(field_desugared(dict_pairs(before)->0[i], dict_pairs(after)->0[i]));
}

} // verus!

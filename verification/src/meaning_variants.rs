//! What the values of variant types are in memory.

use vstd::prelude::*;

use crate::arms::matched;
use crate::ast::{key_is, CallArg, Expr, Node, TokenKey, TokenRange};
use crate::fragment::{NarrowPayload, Scope, SlotsView};
use crate::ir::{sop, SimpleOp, TaggedOpView};
use crate::meaning::{
    lemma_run_concat, pointers_at, reads, record_op_step, run, stored_at, Cell, Flow, Machine,
};
use crate::meaning_args::lemma_operand;
use crate::meaning_match::carries_value;
use crate::meaning_records::lemma_single;
use crate::meaning_stores::{
    evaluates, law_bare_variant_bears_its_tag, law_variant_record_holds_payload, steady, tight,
    undisturbed,
};
use crate::records::{
    bare_variant, called_variant, constructed_variant, typed_value, variant_items, variant_list,
    RecordEnv, RecordLowering,
};
use crate::types::{EnumVariant, Schema, TypeRepr};
use crate::variant::{payload_node, payload_value, variant_index, variant_shape};

verus! {

/// The type has a variant of the name, with the tag, and with a payload of the
/// type where it has one. Of an option, the absent value comes first; of a
/// result, the success.
pub open spec fn declares(
    ty: TypeRepr,
    name: Seq<char>,
    tag: u8,
    payload: Option<TypeRepr>,
) -> bool {
    match ty {
        TypeRepr::Option { inner } => {
            ||| name == "None"@ && tag == 0 && payload is None
            ||| name == "Some"@ && tag == 1 && payload == Some(*inner)
        },
        TypeRepr::Result { ok, err } => {
            ||| name == "Ok"@ && tag == 0 && payload == Some(*ok)
            ||| name == "Err"@ && tag == 1 && payload == Some(*err)
        },
        TypeRepr::Enum { variants, .. } => exists|k: int|
            0 <= k < variants@.len() && (#[trigger] variants@[k]).name@ == name && tag
                == variants@[k].tag && match (variants@[k].payload, payload) {
                (Some(p), Some(q)) => *p == q,
                (None, None) => true,
                _ => false,
            } && forall|j: int| 0 <= j < k ==> (#[trigger] variants@[j]).name@ != name,
        _ => false,
    }
}

/// The type that the payload of a matched variant has.
pub open spec fn narrowed_type(payload: NarrowPayload<'_>) -> Option<TypeRepr> {
    match payload {
        NarrowPayload::Unit => None,
        NarrowPayload::Direct(_, ty) => Some(*ty),
        NarrowPayload::Record(_, ty) => Some(*ty),
    }
}

/// The payloads of declared variants are records.
pub open spec fn record_payloads(ty: TypeRepr) -> bool {
    ty matches TypeRepr::Enum { variants, .. } ==> forall|k: int|
        0 <= k < variants@.len() ==> ((#[trigger] variants@[k]).payload matches Some(p)
            ==> *p is Schema)
}

proof fn lemma_first_of_name(variants: Seq<EnumVariant>, name: Seq<char>, from: int)
    requires
        0 <= from,
    ensures
        variant_index(variants, name, from) matches Some(k) ==> {
            &&& from <= k < variants.len()
            &&& variants[k].name@ == name
            &&& forall|j: int| from <= j < k ==> (#[trigger] variants[j]).name@ != name
        },
    decreases variants.len() - from,
{
    if from < variants.len() && variants[from].name@ != name {
        lemma_first_of_name(variants, name, from + 1);
    }
}

/// What builds a variant and what matches it agree: they know the same variants, by
/// the same tags and with the same payload types, and those are the declared ones.
pub proof fn law_constructor_and_pattern_agree(
    ty: TypeRepr,
    path: Option<Seq<Seq<char>>>,
    name: Seq<char>,
    range: TokenRange,
)
    ensures
        variant_shape(&ty, path, name, range) is Ok <==> matched(&ty, path, name) is Some,
        matched(&ty, path, name) matches Some(n) ==> {
            let shape = variant_shape(&ty, path, name, range)->Ok_0;
            let built = match shape.payload {
                Some(p) => Some(*p.ty),
                None => None,
            };
            &&& shape.tag == n.tag
            &&& declares(ty, name, n.tag, built)
            &&& record_payloads(ty) ==> narrowed_type(n.payload) == built
            &&& n.payload matches NarrowPayload::Direct(key, _) ==> shape.payload->0.key == Some(
                key,
            )
        },
{
    if let TypeRepr::Enum { variants, .. } = ty {
        lemma_first_of_name(variants@, name, 0);
    }
}

/// The field in which the payload of a builtin variant is written down.
pub open spec fn payload_word(name: Seq<char>) -> Seq<char> {
    if name == "Err"@ {
        "error"@
    } else {
        "value"@
    }
}

/// A body with a payload field holds that field alone.
pub proof fn law_payload_is_the_named_field(
    pairs: Seq<(TokenKey, Node)>,
    key: Seq<char>,
    range: TokenRange,
)
    requires
        payload_node(pairs, key, range) is Ok,
    ensures
        pairs.len() == 1,
        key_is(pairs[0].0, key),
        payload_node(pairs, key, range)->Ok_0 == pairs[0].1,
{
    let before = pairs.drop_last();
    assert(payload_value(before, key, range) matches Ok(None));
    if before.len() > 0 {
        lemma_some_payload(before, key, range);
    }
}

proof fn lemma_some_payload(pairs: Seq<(TokenKey, Node)>, key: Seq<char>, range: TokenRange)
    requires
        pairs.len() > 0,
    ensures
        payload_value(pairs, key, range) is Ok ==> payload_value(pairs, key, range)->Ok_0 is Some,
{
}

/// The expression that the payload of a constructed variant comes from: for a
/// builtin variant the one in its payload field, for a declared one the body.
pub open spec fn payload_source(
    expected: TypeRepr,
    name: Seq<char>,
    body: Node,
    node: Node,
) -> bool {
    if expected is Enum {
        node == body
    } else {
        *body.expr matches Expr::Dict(pairs) && pairs@.len() == 1 && key_is(
            pairs@[0].0,
            payload_word(name),
        ) && pairs@[0].1 == node
    }
}

/// The words that name builtin variants differ.
proof fn lemma_words()
    ensures
        "None"@ != "Some"@,
        "Ok"@ != "Err"@,
        "Some"@ != "Err"@,
{
    reveal_strlit("None");
    reveal_strlit("Some");
    reveal_strlit("Ok");
    reveal_strlit("Err");
    assert("None"@[0] != "Some"@[0]);
    assert("Ok"@.len() != "Err"@.len());
    assert("Some"@.len() != "Err"@.len());
}

/// A constructed variant that has a payload is a record with the declared tag and
/// the value of the payload, which is computed as a value of the declared type.
pub proof fn law_constructed_variant_holds_its_payload<L: RecordLowering>(
    env: RecordEnv<'_, L>,
    expected: TypeRepr,
    path: Seq<Seq<char>>,
    name: Seq<char>,
    tag: u8,
    ty: TypeRepr,
    body: Node,
    range: TokenRange,
    scope: Scope<'_>,
    at: SlotsView,
    s: Machine,
    rounds: nat,
) -> (node: Node)
    requires
        declares(expected, name, tag, Some(ty)),
        !(ty is Unit),
        constructed_variant(env, expected, path, name, body, range, scope, at) is Ok,
    ensures
        ({
            let g = constructed_variant(env, expected, path, name, body, range, scope, at)->Ok_0;
            let f = typed_value(env, ty, node, scope, at)->Ok_0;
            &&& payload_source(expected, name, body, node)
            &&& typed_value(env, ty, node, scope, at) is Ok
            &&& tight(s) && steady(f, at, rounds) ==> (run(f.ops, s, rounds) matches Flow::Next(u)
                ==> {
                &&& run(g.ops, s, rounds) matches Flow::Next(t)
                &&& t.stack == s.stack.push(t.operand(0))
                &&& reads(t.mem, t.operand(0), 1, tag as int)
                &&& carries_value(t.mem, ty, t.operand(0), u.operand(0))
            })
        }),
{
    lemma_words();
    if let TypeRepr::Enum { variants, .. } = expected {
        lemma_first_of_name(variants@, name, 0);
        lemma_has_name(variants@, name, 0);
    }
    let shape = variant_shape(&expected, Some(path), name, range)->Ok_0;
    assert(shape.tag == tag);
    assert(shape.payload is Some && *shape.payload->0.ty == ty);
    if let Expr::Dict(pairs) = *body.expr {
        if let Some(key) = shape.payload->0.key {
            assert(key.text() == payload_word(name));
            law_payload_is_the_named_field(pairs@, key.text(), range);
        }
    }
    let node = crate::records::ctor_payload(body, shape.payload->0, range)->Ok_0;
    let f = typed_value(env, ty, node, scope, at)->Ok_0;
    if tight(s) && steady(f, at, rounds) {
        if let Flow::Next(u) = run(f.ops, s, rounds) {
            law_variant_record_holds_payload(
                expected,
                name,
                tag,
                ty,
                f,
                env.in_scratch,
                range,
                at,
                s,
                u,
                u.operand(0),
                rounds,
            );
        }
    }
    node
}

proof fn lemma_has_name(variants: Seq<EnumVariant>, name: Seq<char>, from: int)
    requires
        0 <= from,
    ensures
        variant_index(variants, name, from) is None ==> forall|k: int|
            from <= k < variants.len() ==> (#[trigger] variants[k]).name@ != name,
    decreases variants.len() - from,
{
    if from < variants.len() && variants[from].name@ != name {
        lemma_has_name(variants, name, from + 1);
    }
}

/// A builtin variant that is written as a call is a record with the declared tag
/// and the value of the one argument.
pub proof fn law_called_builtin_variant_holds_its_argument<L: RecordLowering>(
    env: RecordEnv<'_, L>,
    expected: TypeRepr,
    name: Seq<char>,
    tag: u8,
    ty: TypeRepr,
    args: Seq<CallArg>,
    range: TokenRange,
    scope: Scope<'_>,
    at: SlotsView,
    s: Machine,
    rounds: nat,
)
    requires
        expected is Option || expected is Result,
        declares(expected, name, tag, Some(ty)),
        !(ty is Unit),
        called_variant(env, expected, name, args, range, scope, at) is Ok,
    ensures
        ({
            let g = called_variant(env, expected, name, args, range, scope, at)->Ok_0;
            let f = typed_value(env, ty, args[0].value, scope, at)->Ok_0;
            &&& args.len() == 1
            &&& typed_value(env, ty, args[0].value, scope, at) is Ok
            &&& tight(s) && steady(f, at, rounds) ==> (run(f.ops, s, rounds) matches Flow::Next(u)
                ==> {
                &&& run(g.ops, s, rounds) matches Flow::Next(t)
                &&& t.stack == s.stack.push(t.operand(0))
                &&& reads(t.mem, t.operand(0), 1, tag as int)
                &&& carries_value(t.mem, ty, t.operand(0), u.operand(0))
            })
        }),
{
    lemma_words();
    let shape = variant_shape(&expected, None, name, range)->Ok_0;
    assert(shape.tag == tag);
    assert(shape.payload is Some && *shape.payload->0.ty == ty);
    let f = typed_value(env, ty, args[0].value, scope, at)->Ok_0;
    if tight(s) && steady(f, at, rounds) {
        if let Flow::Next(u) = run(f.ops, s, rounds) {
            law_variant_record_holds_payload(
                expected,
                name,
                tag,
                ty,
                f,
                env.in_scratch,
                range,
                at,
                s,
                u,
                u.operand(0),
                rounds,
            );
        }
    }
}

/// A variant that is written by its name alone is a record with the declared tag.
pub proof fn law_named_variant_bears_the_declared_tag(
    expected: TypeRepr,
    name: Seq<char>,
    tag: u8,
    in_scratch: bool,
    range: TokenRange,
    at: SlotsView,
    s: Machine,
    rounds: nat,
)
    requires
        declares(expected, name, tag, None),
        bare_variant(expected, name, in_scratch, range, at) is Ok,
        tight(s),
    ensures
        ({
            let g = bare_variant(expected, name, in_scratch, range, at)->Ok_0;
            &&& run(g.ops, s, rounds) matches Flow::Next(t)
            &&& t.stack == s.stack.push(t.operand(0))
            &&& reads(t.mem, t.operand(0), 1, tag as int)
        }),
{
    lemma_words();
    if let TypeRepr::Enum { variants, .. } = expected {
        lemma_first_of_name(variants@, name, 0);
        lemma_has_name(variants@, name, 0);
    }
    law_bare_variant_bears_its_tag(expected, name, tag, in_scratch, range, at, s, rounds);
}

// ---------------------------------------------------------------------------
// Lists of variants.
// ---------------------------------------------------------------------------

/// Values of declared types leave one value and disturb nothing.
pub open spec fn steady_values<L: RecordLowering>(env: RecordEnv<'_, L>, rounds: nat) -> bool {
    forall|ty: TypeRepr, node: Node, scope: Scope<'_>, at: SlotsView|
        (#[trigger] typed_value(env, ty, node, scope, at)) matches Ok(f) ==> (f.ty is Some
            ==> steady(f, at, rounds))
}

pub open spec fn finishing_values<L: RecordLowering>(env: RecordEnv<'_, L>, rounds: nat) -> bool {
    forall|ty: TypeRepr, node: Node, scope: Scope<'_>, at: SlotsView, s: Machine|
        typed_value(env, ty, node, scope, at) is Ok && tight(s) ==> (#[trigger] run(
            typed_value(env, ty, node, scope, at)->Ok_0.ops,
            s,
            rounds,
        )) is Next
}

/// The expression leaves `v` as a value of the type.
pub open spec fn typed_as<L: RecordLowering>(
    env: RecordEnv<'_, L>,
    ty: TypeRepr,
    node: Node,
    scope: Scope<'_>,
    s: Machine,
    at: SlotsView,
    v: int,
    rounds: nat,
) -> bool {
    exists|slots: SlotsView, u: Machine, t: Machine|
        #![trigger evaluates(
            typed_value(env, ty, node, scope, slots)->Ok_0.ops,
            s,
            at,
            s.free,
            s.free,
            u,
            t,
            v,
            rounds,
        )]
        typed_value(env, ty, node, scope, slots) is Ok && evaluates(
            typed_value(env, ty, node, scope, slots)->Ok_0.ops,
            s,
            at,
            s.free,
            s.free,
            u,
            t,
            v,
            rounds,
        )
}

proof fn lemma_items<L: RecordLowering>(
    env: RecordEnv<'_, L>,
    element: TypeRepr,
    items: Seq<Node>,
    scope: Scope<'_>,
    at: SlotsView,
    s: Machine,
    rounds: nat,
) -> (values: Seq<int>)
    requires
        steady_values(env, rounds),
        tight(s),
        variant_items(env, element, items, scope, at) is Ok,
    ensures
        ({
            let g = variant_items(env, element, items, scope, at)->Ok_0;
            &&& at.lets <= g.slots.lets
            &&& at.records <= g.slots.records
            &&& finishing_values(env, rounds) ==> run(g.ops, s, rounds) is Next
            &&& run(g.ops, s, rounds) matches Flow::Next(t) ==> {
                &&& values.len() == items.len()
                &&& t.stack == s.stack + values
                &&& tight(t)
                &&& undisturbed(s, t, at, s.free, s.free)
                &&& forall|i: int|
                    0 <= i < items.len() ==> typed_as(
                        env,
                        element,
                        #[trigger] items[i],
                        scope,
                        s,
                        at,
                        values[i],
                        rounds,
                    )
            }
        }),
    decreases items.len(),
{
    if items.len() == 0 {
        let none = Seq::<int>::empty();
        assert(s.stack + none =~= s.stack);
        assert(run(Seq::<TaggedOpView>::empty(), s, rounds) == Flow::Next(s));
        none
    } else {
        let before = items.drop_last();
        let first = lemma_items(env, element, before, scope, at, s, rounds);
        let pre = variant_items(env, element, before, scope, at)->Ok_0;
        let f = typed_value(env, element, items.last(), scope, pre.slots)->Ok_0;
        assert(steady(f, pre.slots, rounds));
        lemma_run_concat(pre.ops, f.ops, 0, s, rounds);
        if let Flow::Next(w) = run(pre.ops, s, rounds) {
            lemma_operand(f, pre.slots, s, at, w, rounds);
            if finishing_values(env, rounds) {
                assert(run(
                    typed_value(env, element, items.last(), scope, pre.slots)->Ok_0.ops,
                    w,
                    rounds,
                ) is Next);
            }
            if let Flow::Next(t) = run(f.ops, w, rounds) {
                let v = t.operand(0);
                let values = first.push(v);
                assert(t.stack =~= s.stack + values);
                assert forall|i: int| 0 <= i < items.len() implies typed_as(
                    env,
                    element,
                    #[trigger] items[i],
                    scope,
                    s,
                    at,
                    values[i],
                    rounds,
                ) by {
                    if i < before.len() {
                        assert(before[i] == items[i]);
                    }
                }
                values
            } else {
                first
            }
        } else {
            first
        }
    }
}

/// Each pointer that was stored is read back.
proof fn lemma_pointers(mem: Map<int, Cell>, addr: int, values: Seq<int>)
    ensures
        ({
            let after = pointers_at(mem, addr, values);
            &&& forall|i: int|
                0 <= i < values.len() ==> reads(after, addr + 4 * i, 4, #[trigger] values[i])
            &&& forall|a: int| #[trigger]
                mem.dom().contains(a) && mem[a].width > 0 && (a + mem[a].width <= addr || addr + 4
                    * values.len() <= a)
                    ==> after.dom().contains(a) && after[a] == mem[a]
        }),
    decreases values.len(),
{
    if values.len() > 0 {
        let before = values.drop_last();
        lemma_pointers(mem, addr, before);
        let mid = pointers_at(mem, addr, before);
        let after = pointers_at(mem, addr, values);
        assert forall|i: int| 0 <= i < values.len() implies reads(
            after,
            addr + 4 * i,
            4,
            #[trigger] values[i],
        ) by {
            if i < before.len() {
                assert(before[i] == values[i]);
                assert(reads(mid, addr + 4 * i, 4, before[i]));
            }
        }
        assert forall|a: int| #[trigger]
            mem.dom().contains(a) && mem[a].width > 0 && (a + mem[a].width <= addr || addr + 4
                * values.len() <= a) implies after.dom().contains(a) && after[a] == mem[a] by {
            assert(mid.dom().contains(a) && mid[a] == mem[a]);
        }
    }
}

/// A list literal of variants leaves a list that points at its elements: their
/// number stands at its head, and behind it, in their order, the addresses that the
/// elements leave.
pub proof fn law_variant_list_points_at_its_elements<L: RecordLowering>(
    env: RecordEnv<'_, L>,
    element: TypeRepr,
    items: Seq<Node>,
    range: TokenRange,
    scope: Scope<'_>,
    at: SlotsView,
    s: Machine,
    rounds: nat,
) -> (values: Seq<int>)
    requires
        steady_values(env, rounds),
        tight(s),
        variant_list::<L>(
            variant_items(env, element, items, scope, at),
            items.len(),
            range,
        ) is Ok,
    ensures
        ({
            let g = variant_list::<L>(
                variant_items(env, element, items, scope, at),
                items.len(),
                range,
            )->Ok_0;
            &&& finishing_values(env, rounds) ==> run(g.ops, s, rounds) is Next
            &&& run(g.ops, s, rounds) matches Flow::Next(t) ==> {
                let p = t.operand(0);
                &&& t.stack == s.stack.push(p)
                &&& reads(t.mem, p, 4, items.len() as int)
                &&& values.len() == items.len()
                &&& forall|i: int|
                    0 <= i < items.len() ==> typed_as(
                        env,
                        element,
                        #[trigger] items[i],
                        scope,
                        s,
                        at,
                        values[i],
                        rounds,
                    ) && reads(t.mem, p + 4 + 4 * i, 4, values[i])
            }
        }),
{
    reveal(record_op_step);
    let f = variant_items(env, element, items, scope, at)->Ok_0;
    let values = lemma_items(env, element, items, scope, at, s, rounds);
    let n = items.len() as u32;
    let op = SimpleOp::BuildPointerList { len: n };
    let last = seq![sop(op, range)];
    assert(f.ops.push(sop(op, range)) =~= f.ops + last);
    lemma_run_concat(f.ops, last, 0, s, rounds);
    if let Flow::Next(u) = run(f.ops, s, rounds) {
        assert(u.topmost(n as int) =~= values);
        assert(u.popped(n as int).stack =~= s.stack);
        let base = u.free;
        let head = stored_at(u.mem, base, 4, n as int);
        let mem = pointers_at(head, base + 4, values);
        lemma_pointers(head, base + 4, values);
        let t = (Machine { mem, ..u.popped(n as int) }).with_block(4 + 4 * n).pushed(base);
        assert(head.dom().contains(base));
        lemma_single(op, range, u, t, rounds);
    }
    values
}

} // verus!

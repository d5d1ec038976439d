//! What a match computes: the arm of the tag runs, and its binders hold the
//! payload.

use vstd::prelude::*;

use crate::arms::{binding_field, payload_field_type};
use crate::ast::{Node, PatternBinding, TokenKey, TokenRange};
use crate::fragment::{EnumVariantNarrowing, NarrowPayload, Scope, SlotsView};
use crate::ir::{sop, IrType, OpView, SimpleOp, TaggedOpView};
use crate::matching::{arm_branch, bound_body, dispatch, payload_binding, tag_test, ArmView};
use crate::meaning::{
    lemma_popped, lemma_run_concat, reads, record_op_step, run, run_from, same_below, simple_step,
    step, truth, width_of, Cell, Flow, Machine,
};
use crate::meaning_records::{
    first_field, holds_field, lemma_first_field, lemma_one_more, lemma_positional, lemma_single,
};
use crate::names::among;
use crate::records::{positional_fields, record_ir_type, RecordLowering};
use crate::reference::{payload_load, payload_path, payload_read};
use crate::text::decimal_chars;
use crate::types::TypeRepr;
use crate::variant::{law_payload_offset, payload_offset, PayloadKey};

verus! {

// ---------------------------------------------------------------------------
// Payloads.
// ---------------------------------------------------------------------------

/// The variant record at `p` carries the record at `q`: the pointer stands at
/// the place of the payload.
pub open spec fn carries_record(mem: Map<int, Cell>, ty: TypeRepr, p: int, q: int) -> bool {
    payload_offset(ty) matches Some(offset) && reads(mem, p + offset, 4, q)
}

/// The variant record at `p` carries the value `w` itself.
pub open spec fn carries_value(mem: Map<int, Cell>, ty: TypeRepr, p: int, w: int) -> bool {
    payload_offset(ty) matches Some(offset) && (record_ir_type(ty) matches Some(irt) && reads(
        mem,
        p + offset,
        width_of(irt),
        w,
    ))
}

/// The variant record at `p` holds `w` in the payload field of the name.
pub open spec fn holds_named<L: RecordLowering>(
    low: L,
    mem: Map<int, Cell>,
    n: EnumVariantNarrowing<'_>,
    name: Seq<char>,
    p: int,
    w: int,
) -> bool {
    match n.payload {
        NarrowPayload::Unit => false,
        NarrowPayload::Direct(key, ty) => name == (match key {
            PayloadKey::Value => "value"@,
            PayloadKey::Error => "error"@,
        }) && carries_value(mem, *ty, p, w),
        NarrowPayload::Record(schema, ty) => exists|q: int, i: int| #[trigger]
            carries_record(mem, *ty, p, q) && #[trigger] holds_field(low, mem, *schema, i, q, w)
                && first_field(schema.fields@, name, i),
    }
}

/// The variant record at `p` holds `w` in the payload field of the position; a
/// single value has one position.
pub open spec fn holds_position<L: RecordLowering>(
    low: L,
    mem: Map<int, Cell>,
    n: EnumVariantNarrowing<'_>,
    i: int,
    p: int,
    w: int,
) -> bool {
    match n.payload {
        NarrowPayload::Unit => false,
        NarrowPayload::Direct(_, ty) => carries_value(mem, *ty, p, w),
        NarrowPayload::Record(schema, ty) => positional_fields(schema.fields@) && exists|q: int|
            #[trigger] carries_record(mem, *ty, p, q) && holds_field(low, mem, *schema, i, q, w),
    }
}

/// What a binder at a position of a pattern stands for: the field that it names,
/// or else the one at its position.
pub open spec fn binder_holds<L: RecordLowering>(
    low: L,
    mem: Map<int, Cell>,
    n: EnumVariantNarrowing<'_>,
    binding: PatternBinding,
    i: int,
    p: int,
    w: int,
) -> bool {
    match binding.field {
        Some(field) => holds_named(low, mem, n, field@, p, w),
        None => holds_position(low, mem, n, i, p, w),
    }
}

proof fn lemma_payload_read<L: RecordLowering>(
    low: L,
    n: EnumVariantNarrowing<'_>,
    name: Seq<char>,
    range: TokenRange,
    at: SlotsView,
    s: Machine,
    p: int,
    w: int,
    rounds: nat,
)
    requires
        holds_named(low, s.mem, n, name, p, w),
    ensures
        payload_read(low, name, n, IrType::I32, range, at) matches Ok(f) && run(
            f.ops,
            s.pushed(p),
            rounds,
        ) == Flow::Next(s.pushed(w)) && f.slots == at && f.ty is Some,
{
    reveal(record_op_step);
    lemma_popped(s, p, 0);
    match n.payload {
        NarrowPayload::Unit => {},
        NarrowPayload::Direct(key, ty) => {
            law_payload_offset(*ty);
            let irt = record_ir_type(*ty)->0;
            let op = payload_load(irt, payload_offset(*ty)->0 as u32);
            assert(simple_step(op, s.pushed(p)) == Flow::Next(s.pushed(w)));
            lemma_single(op, range, s.pushed(p), s.pushed(w), rounds);
        },
        NarrowPayload::Record(schema, ty) => {
            let (q, i) = choose|q: int, i: int| #[trigger]
                carries_record(s.mem, *ty, p, q) && #[trigger]
                holds_field(low, s.mem, *schema, i, q, w) && first_field(schema.fields@, name, i);
            law_payload_offset(*ty);
            lemma_first_field(schema.fields@, name, i, 0);
            lemma_popped(s, q, 0);
            let layout = low.layout(*schema)->Ok_0;
            let irt = record_ir_type(schema.fields@[i].ty)->0;
            let one = SimpleOp::LoadI32AtAbsolute { offset: payload_offset(*ty)->0 as u32 };
            let two = SimpleOp::LoadFieldAtAbsolute { offset: layout.fields[i].offset, ty: irt };
            lemma_single(one, range, s.pushed(p), s.pushed(q), rounds);
            assert(simple_step(two, s.pushed(q)) == Flow::Next(s.pushed(w)));
            lemma_one_more(
                seq![sop(one, range)],
                two,
                range,
                s.pushed(p),
                s.pushed(q),
                s.pushed(w),
                rounds,
            );
            assert(seq![sop(one, range)].push(sop(two, range)) =~= seq![
                sop(one, range),
                sop(two, range),
            ]);
        },
    }
}

/// A binder reads the field that it stands for under the name that is looked up.
proof fn lemma_binder_names<L: RecordLowering>(
    low: L,
    mem: Map<int, Cell>,
    n: EnumVariantNarrowing<'_>,
    binding: PatternBinding,
    i: int,
    p: int,
    w: int,
)
    requires
        binder_holds(low, mem, n, binding, i, p, w),
        0 <= i,
    ensures
        holds_named(low, mem, n, binding_field(n, binding, i as nat), p, w),
{
    if binding.field is None {
        match n.payload {
            NarrowPayload::Record(schema, ty) => {
                let q = choose|q: int| #[trigger]
                    carries_record(mem, *ty, p, q) && holds_field(low, mem, *schema, i, q, w);
                lemma_positional(schema.fields@, i);
            },
            _ => {},
        }
    }
}

/// The word that a binder holds is what the payload holds for it, in every
/// memory: one payload field, one word.
pub proof fn law_binder_word_is_unique<L: RecordLowering>(
    low: L,
    mem: Map<int, Cell>,
    n: EnumVariantNarrowing<'_>,
    binding: PatternBinding,
    i: int,
    p: int,
    v: int,
    w: int,
)
    requires
        binder_holds(low, mem, n, binding, i, p, v),
        binder_holds(low, mem, n, binding, i, p, w),
        0 <= i,
    ensures
        v == w,
{
    lemma_binder_names(low, mem, n, binding, i, p, v);
    lemma_binder_names(low, mem, n, binding, i, p, w);
    let name = binding_field(n, binding, i as nat);
    match n.payload {
        NarrowPayload::Record(schema, ty) => {
            let (q, k) = choose|q: int, k: int| #[trigger]
                carries_record(mem, *ty, p, q) && #[trigger] holds_field(low, mem, *schema, k, q, v)
                    && first_field(schema.fields@, name, k);
            let (r, m) = choose|q: int, k: int| #[trigger]
                carries_record(mem, *ty, p, q) && #[trigger] holds_field(low, mem, *schema, k, q, w)
                    && first_field(schema.fields@, name, k);
            lemma_first_field(schema.fields@, name, k, 0);
            lemma_first_field(schema.fields@, name, m, 0);
        },
        _ => {},
    }
}

// ---------------------------------------------------------------------------
// Binders.
// ---------------------------------------------------------------------------

/// The code of an arm sets a let slot for every binder and then runs the body,
/// which sees each binder's name as that slot. When the body begins, the slot of
/// the binder at position `i` holds `words[i]`; what was set before is as it was.
pub open spec fn arm_binds<L: RecordLowering>(
    low: L,
    bindings: Seq<PatternBinding>,
    words: Seq<int>,
    from: int,
    body: Node,
    code: Seq<TaggedOpView>,
    base: u32,
    s: Machine,
    rounds: nat,
    pre: Seq<TaggedOpView>,
    inner: Scope<'_>,
    at: SlotsView,
    t: Machine,
) -> bool {
    &&& low.lowered(body, inner, at) matches Ok(f) && code == pre + f.ops
    &&& run(pre, s, rounds) == Flow::Next(t)
    &&& t == (Machine { lets: t.lets, ..s })
    &&& same_below(s, t, base as int)
    &&& base <= at.lets
    &&& forall|i: int|
        from <= i < bindings.len() && (#[trigger] bindings[i]).binding is Some ==> (inner.find(
            bindings[i].binding->0@,
        ) matches Some(b) && b.constant is None && t.lets.dom().contains(b.idx) && t.lets[b.idx]
            == words[i])
}

/// There are such code and slots.
pub open spec fn binds<L: RecordLowering>(
    low: L,
    bindings: Seq<PatternBinding>,
    words: Seq<int>,
    from: int,
    body: Node,
    code: Seq<TaggedOpView>,
    base: u32,
    s: Machine,
    rounds: nat,
) -> bool {
    exists|pre: Seq<TaggedOpView>, inner: Scope<'_>, at: SlotsView, t: Machine| #[trigger]
        arm_binds(low, bindings, words, from, body, code, base, s, rounds, pre, inner, at, t)
}

/// What is bound further in leaves the slots of the names that were bound before
/// as they were.
proof fn lemma_binds<L: RecordLowering>(
    low: L,
    scrutinee: u32,
    n: EnumVariantNarrowing<'_>,
    bindings: Seq<PatternBinding>,
    from: int,
    seen: Seq<String>,
    body: Node,
    range: TokenRange,
    scope: Scope<'_>,
    at: SlotsView,
    words: Seq<int>,
    s: Machine,
    rounds: nat,
)
    requires
        0 <= from <= bindings.len(),
        scrutinee < at.lets,
        at.lets + (bindings.len() - from) <= u32::MAX,
        s.lets.dom().contains(scrutinee),
        forall|i: int|
            from <= i < bindings.len() && (#[trigger] bindings[i]).binding is Some ==> binder_holds(
                low,
                s.mem,
                n,
                bindings[i],
                i,
                s.lets[scrutinee],
                words[i],
            ),
        forall|k: int|
            0 <= k < seen.len() ==> (scope.find((#[trigger] seen[k])@) matches Some(b)
                && b.constant is None && b.idx < at.lets),
    ensures
        bound_body(
            low,
            scrutinee,
            n,
            bindings,
            from,
            seen,
            body,
            range,
            scope,
            at,
        ) matches Ok(g) ==> binds(low, bindings, words, from, body, g.ops, at.lets, s, rounds)
            && exists|pre: Seq<TaggedOpView>, inner: Scope<'_>, after: SlotsView, t: Machine|
            #[trigger]
            arm_binds(
                low,
                bindings,
                words,
                from,
                body,
                g.ops,
                at.lets,
                s,
                rounds,
                pre,
                inner,
                after,
                t,
            ) && forall|k: int|
                0 <= k < seen.len() ==> inner.find((#[trigger] seen[k])@) == scope.find(seen[k]@),
    decreases bindings.len() - from,
{
    if let Ok(g) = bound_body(low, scrutinee, n, bindings, from, seen, body, range, scope, at) {
        if from >= bindings.len() {
            let pre = Seq::<TaggedOpView>::empty();
            assert(g.ops =~= pre + g.ops);
            assert(run(pre, s, rounds) == Flow::Next(s));
            assert(arm_binds(
                low,
                bindings,
                words,
                from,
                body,
                g.ops,
                at.lets,
                s,
                rounds,
                pre,
                scope,
                at,
                s,
            ));
        } else if bindings[from].binding is None {
            lemma_binds(
                low,
                scrutinee,
                n,
                bindings,
                from + 1,
                seen,
                body,
                range,
                scope,
                at,
                words,
                s,
                rounds,
            );
            let (pre, inner, after, t) = choose|
                pre: Seq<TaggedOpView>,
                inner: Scope<'_>,
                after: SlotsView,
                t: Machine,
            | #[trigger]
                arm_binds(
                    low,
                    bindings,
                    words,
                    from + 1,
                    body,
                    g.ops,
                    at.lets,
                    s,
                    rounds,
                    pre,
                    inner,
                    after,
                    t,
                ) && forall|k: int|
                    0 <= k < seen.len() ==> inner.find((#[trigger] seen[k])@) == scope.find(
                        seen[k]@,
                    );
            assert(arm_binds(
                low,
                bindings,
                words,
                from,
                body,
                g.ops,
                at.lets,
                s,
                rounds,
                pre,
                inner,
                after,
                t,
            ));
        } else {
            let name = bindings[from].binding->0;
            let p = s.lets[scrutinee];
            let w = words[from];
            let field = binding_field(n, bindings[from], from as nat);
            lemma_binder_names(low, s.mem, n, bindings[from], from, p, w);
            lemma_payload_read(low, n, field, range, at, s, p, w, rounds);
            let f = payload_read(low, field, n, IrType::I32, range, at)->Ok_0;
            let repr = payload_field_type(n, field, range)->Ok_0;
            let get = SimpleOp::LetGet { idx: scrutinee, ty: IrType::I32 };
            let set = SimpleOp::LetSet { idx: at.lets, ty: f.ty->0 };
            let head = (seq![sop(get, range)] + f.ops).push(sop(set, range));
            let u = s.with_let(at.lets, w);
            lemma_single(get, range, s, s.pushed(p), rounds);
            lemma_run_concat(seq![sop(get, range)], f.ops, 0, s, rounds);
            lemma_popped(s, w, 0);
            lemma_one_more(seq![sop(get, range)] + f.ops, set, range, s, s.pushed(w), u, rounds);
            assert(run(head, s, rounds) == Flow::Next(u));
            let b = payload_binding(name, at.lets, f.ty->0, repr);
            let more = Scope::Bind(b, &scope);
            let named = seen.push(name);
            assert forall|k: int| 0 <= k < named.len() implies (more.find((#[trigger] named[k])@)
                matches Some(b) && b.constant is None && b.idx < at.after(1).lets) by {
                if k < seen.len() {
                    assert(named[k] == seen[k]);
                    assert(seen[k]@ != name@) by {
                        assert(!among(seen, name@));
                    }
                }
            }
            assert forall|i: int|
                from + 1 <= i < bindings.len() && (
                #[trigger] bindings[i]).binding is Some implies binder_holds(
                low,
                u.mem,
                n,
                bindings[i],
                i,
                u.lets[scrutinee],
                words[i],
            ) by {}
            lemma_binds(
                low,
                scrutinee,
                n,
                bindings,
                from + 1,
                named,
                body,
                range,
                more,
                at.after(1),
                words,
                u,
                rounds,
            );
            let rest = bound_body(
                low,
                scrutinee,
                n,
                bindings,
                from + 1,
                named,
                body,
                range,
                more,
                at.after(1),
            )->Ok_0;
            let (pre, inner, after, t) = choose|
                pre: Seq<TaggedOpView>,
                inner: Scope<'_>,
                after: SlotsView,
                t: Machine,
            | #[trigger]
                arm_binds(
                    low,
                    bindings,
                    words,
                    from + 1,
                    body,
                    rest.ops,
                    at.after(1).lets,
                    u,
                    rounds,
                    pre,
                    inner,
                    after,
                    t,
                ) && forall|k: int|
                    0 <= k < named.len() ==> inner.find((#[trigger] named[k])@) == more.find(
                        named[k]@,
                    );
            lemma_run_concat(head, pre, 0, s, rounds);
            let body_ops = low.lowered(body, inner, after)->Ok_0.ops;
            assert(g.ops =~= (head + pre) + body_ops);
            assert(same_below(s, t, at.lets as int)) by {
                assert forall|slot: u32| slot < at.lets implies (
                #[trigger] s.lets.dom().contains(slot) == t.lets.dom().contains(slot)
                    && s.lets[slot] == t.lets[slot]) by {
                    assert(u.lets.dom().contains(slot) == t.lets.dom().contains(slot));
                }
            }
            assert(named[seen.len() as int] == name);
            assert(inner.find(name@) == Some(b));
            assert(u.lets.dom().contains(at.lets) == t.lets.dom().contains(at.lets));
            assert forall|k: int| 0 <= k < seen.len() implies inner.find((#[trigger] seen[k])@)
                == scope.find(seen[k]@) by {
                assert(named[k] == seen[k]);
                assert(seen[k]@ != name@) by {
                    assert(!among(seen, name@));
                }
            }
            assert(arm_binds(
                low,
                bindings,
                words,
                from,
                body,
                g.ops,
                at.lets,
                s,
                rounds,
                head + pre,
                inner,
                after,
                t,
            ));
        }
    }
}

/// The arm of a variant binds the payload: when its body begins, the slot that
/// the body reads for the binder at position `i` holds the word of the payload
/// field that the binder names, or, where it names none, of the field at
/// position `i`.
pub proof fn law_pattern_binds_payload<L: RecordLowering>(
    low: L,
    body: Node,
    range: TokenRange,
    name: String,
    scrutinee: u32,
    n: EnumVariantNarrowing<'_>,
    bindings: Seq<PatternBinding>,
    scope: Scope<'_>,
    at: SlotsView,
    words: Seq<int>,
    s: Machine,
    rounds: nat,
)
    requires
        scrutinee < at.lets,
        at.lets + bindings.len() <= u32::MAX,
        s.lets.dom().contains(scrutinee),
        forall|i: int|
            0 <= i < bindings.len() && (#[trigger] bindings[i]).binding is Some ==> binder_holds(
                low,
                s.mem,
                n,
                bindings[i],
                i,
                s.lets[scrutinee],
                words[i],
            ),
    ensures
        arm_branch(low, body, range, name, scrutinee, Some(n), bindings, scope, at) matches Ok(g)
            ==> binds(low, bindings, words, 0, body, g.ops, at.lets, s, rounds),
{
    lemma_binds(
        low,
        scrutinee,
        n,
        bindings,
        0,
        Seq::empty(),
        body,
        range,
        Scope::Narrow(&name, n, &scope),
        at,
        words,
        s,
        rounds,
    );
}

/// A field of the payload is read through the name of the variable inside the
/// arm: `v.field` and, for a tuple, `v.0` leave the word of that field.
pub proof fn law_payload_path_reads_field<L: RecordLowering>(
    low: L,
    segment: TokenKey,
    n: EnumVariantNarrowing<'_>,
    range: TokenRange,
    at: SlotsView,
    s: Machine,
    p: int,
    w: int,
    rounds: nat,
)
    requires
        match segment {
            TokenKey::String(name, _, optional) => !optional && holds_named(
                low,
                s.mem,
                n,
                name@,
                p,
                w,
            ),
            TokenKey::Index(k, optional) => !optional && (
            n.payload matches NarrowPayload::Record(schema, _) && schema.is_tuple)
                && holds_position(low, s.mem, n, k as int, p, w),
            _ => false,
        },
    ensures
        payload_path(low, seq![segment], n, IrType::I32, range, at) matches Ok(f) && run(
            f.ops,
            s.pushed(p),
            rounds,
        ) == Flow::Next(s.pushed(w)),
{
    match segment {
        TokenKey::String(name, _, _) => {
            lemma_payload_read(low, n, name@, range, at, s, p, w, rounds);
        },
        TokenKey::Index(k, _) => {
            match n.payload {
                NarrowPayload::Record(schema, ty) => {
                    let q = choose|q: int| #[trigger]
                        carries_record(s.mem, *ty, p, q) && holds_field(
                            low,
                            s.mem,
                            *schema,
                            k as int,
                            q,
                            w,
                        );
                    lemma_positional(schema.fields@, k as int);
                },
                _ => {},
            }
            lemma_payload_read(low, n, decimal_chars(k as nat), range, at, s, p, w, rounds);
        },
        _ => {},
    }
}

// ---------------------------------------------------------------------------
// The choice of the arm.
// ---------------------------------------------------------------------------

/// The arm is the first one for the tag, or without a tag.
pub open spec fn first_arm_for(arms: Seq<ArmView>, tag: u8, k: int) -> bool {
    &&& 0 <= k < arms.len()
    &&& arms[k].tag is None || arms[k].tag == Some(tag)
    &&& forall|j: int|
        0 <= j < k ==> (#[trigger] arms[j]).tag is Some && arms[j].tag != Some(tag)
}

/// The chain of tests runs the first arm for the tag that the variant record
/// bears.
pub proof fn law_tag_picks_the_arm(
    arms: Seq<ArmView>,
    slot: u32,
    result_ty: IrType,
    range: TokenRange,
    s: Machine,
    tag: u8,
    k: int,
    end: Flow,
    rounds: nat,
)
    requires
        s.lets.dom().contains(slot),
        reads(s.mem, s.lets[slot], 1, tag as int),
        first_arm_for(arms, tag, k),
        run(arms[k].ops, s, rounds) == end,
        end is Next || end is Trap,
    ensures
        run(dispatch(arms, slot, result_ty, range), s, rounds) == end,
    decreases arms.len(),
{
    reveal(record_op_step);
    if arms.len() > 1 && arms[0].tag is Some {
        let own = arms[0].tag->0;
        let test = tag_test(slot, own, arms[0].range);
        let rest = dispatch(arms.drop_first(), slot, result_ty, range);
        let choice = TaggedOpView {
            op: OpView::If { result_ty, then_body: arms[0].ops, else_body: rest },
            range,
        };
        let p = s.lets[slot];
        let hit = truth(tag as int == own as i32 as int);
        lemma_popped(s, p, 0);
        lemma_popped(s, tag as int, own as i32 as int);
        lemma_popped(s, hit, 0);
        assert(run(test, s, rounds) == Flow::Next(s.pushed(hit))) by {
            let r = arms[0].range;
            let get = SimpleOp::LetGet { idx: slot, ty: IrType::I32 };
            let load = SimpleOp::LoadI8UAtAbsolute { offset: 0 };
            let constant = SimpleOp::ConstI32(own as i32);
            let equal = SimpleOp::Eq(IrType::I32);
            lemma_single(get, r, s, s.pushed(p), rounds);
            let one = seq![sop(get, r)];
            lemma_one_more(one, load, r, s, s.pushed(p), s.pushed(tag as int), rounds);
            let two = one.push(sop(load, r));
            let u = s.pushed(tag as int).pushed(own as i32 as int);
            lemma_one_more(two, constant, r, s, s.pushed(tag as int), u, rounds);
            let three = two.push(sop(constant, r));
            assert(simple_step(equal, u) == Flow::Next(s.pushed(hit)));
            lemma_one_more(three, equal, r, s, u, s.pushed(hit), rounds);
            assert(test =~= three.push(sop(equal, r)));
        }
        let last = seq![choice];
        assert(dispatch(arms, slot, result_ty, range) =~= test + last);
        lemma_run_concat(test, last, 0, s, rounds);
        assert(last[0] == choice);
        if own != tag {
            let others = arms.drop_first();
            assert(k > 0);
            assert(others[k - 1] == arms[k]);
            assert forall|j: int| 0 <= j < k - 1 implies (#[trigger] others[j]).tag is Some
                && others[j].tag != Some(tag) by {
                assert(others[j] == arms[j + 1]);
            }
            law_tag_picks_the_arm(others, slot, result_ty, range, s, tag, k - 1, end, rounds);
            assert(run_from(rest, 0, s, rounds) == end);
        } else {
            assert(k == 0) by {
                if k > 0 {
                    assert(arms[0].tag != Some(tag));
                }
            }
        }
        assert(step(choice, s.pushed(hit), rounds) == end);
        if let Flow::Next(t) = end {
            assert(run_from(last, 1, t, rounds) == end);
        }
        assert(run_from(last, 0, s.pushed(hit), rounds) == end);
    } else {
        assert(k == 0) by {
            if k > 0 {
                assert(arms[0].tag is Some);
            }
        }
    }
}

} // verus!

//! Which of its forms a call takes, and what the tables behind calls hold.

use vstd::prelude::*;

use crate::ast::{CallArg, Node, TokenKey, TokenRange, TypeNode};
use crate::calls::{
    first_applied, fn_call, fused_forms, hof_receiver, local_closure_call, method_call,
    CallLowering,
};
use crate::chain::StageMethod;
use crate::error::ErrorView;
use crate::fragment::{let_get, let_set, FragmentView, Scope, SlotsView, SubLowering};
use crate::index::list_index;
use crate::ir::{IrType, SimpleOp, TaggedOpView};
use crate::list_calls::hof_method;
use crate::meaning::{lemma_run_concat, run, same_below, Flow, Machine};
use crate::meaning_args::lemma_operand;
use crate::meaning_calls::{
    accepted, finishing_operands, lists_work, mapped, steady_operands, Elements,
};
use crate::meaning_hof::{closure_is, law_method_maps_or_filters};
use crate::meaning_records::{lemma_one_more, lemma_single};
use crate::meaning_stores::{steady, tight};
use crate::names::{law_first_entry_counts, lemma_name_index, text_less, NameTable};
use crate::native_import::{
    native_types, resolve_all, resolve_entry, EntryView, HostFnEntry, HostFnSignature,
    NativeFnGate,
};
use crate::reference::row_chain;
use crate::shape::native_ir_type;
use crate::stdlib::StdlibTable;

verus! {

/// The attempt declines.
pub open spec fn declines(attempt: Result<Option<FragmentView>, ErrorView>) -> bool {
    attempt matches Ok(None)
}

/// Of several forms the first that does not decline counts.
pub proof fn law_first_form_that_applies_counts(
    attempts: Seq<Result<Option<FragmentView>, ErrorView>>,
    i: int,
)
    requires
        0 <= i <= attempts.len(),
        forall|j: int| 0 <= j < i ==> declines(#[trigger] attempts[j]),
    ensures
        i < attempts.len() && !declines(attempts[i]) ==> first_applied(attempts, 0) == attempts[i],
        i == attempts.len() ==> declines(first_applied(attempts, 0)),
{
    lemma_first_form(attempts, 0, i);
}

proof fn lemma_first_form(
    attempts: Seq<Result<Option<FragmentView>, ErrorView>>,
    from: int,
    i: int,
)
    requires
        0 <= from <= i <= attempts.len(),
        forall|j: int| from <= j < i ==> declines(#[trigger] attempts[j]),
    ensures
        i < attempts.len() && !declines(attempts[i]) ==> first_applied(attempts, from)
            == attempts[i],
        i == attempts.len() ==> declines(first_applied(attempts, from)),
    decreases i - from,
{
    if from < i {
        assert(declines(attempts[from]));
        lemma_first_form(attempts, from + 1, i);
    }
}

/// A name that is bound to a closure hides every other meaning of a call.
pub proof fn law_bound_closure_hides_routines<L: CallLowering>(
    low: L,
    table: StdlibTable,
    resolved: NameTable<HostFnEntry>,
    path: Seq<TokenKey>,
    args: Seq<CallArg>,
    range: TokenRange,
    scope: Scope<'_>,
    at: SlotsView,
)
    requires
        path.len() > 0,
        !declines(local_closure_call(low, path, args, range, scope, at)),
    ensures
        fn_call(low, table, resolved, path, args, range, scope, at) == match local_closure_call(
            low,
            path,
            args,
            range,
            scope,
            at,
        ) {
            Ok(f) => Ok(f->0),
            Err(e) => Err(e),
        },
{
    let forms = fused_forms(low, table, path, args, range, scope, at);
    assert(forms[0] == local_closure_call(low, path, args, range, scope, at));
    law_first_form_that_applies_counts(forms, 0);
}

/// The method `map` of a list leaves the list of what the closure makes of each element
/// of the receiver, and `filter` the list of those for which it gives true.
pub proof fn law_list_methods_map_and_filter<L: CallLowering>(
    low: L,
    table: StdlibTable,
    segments: Seq<TokenKey>,
    name: Seq<char>,
    args: Seq<CallArg>,
    range: TokenRange,
    scope: Scope<'_>,
    at: SlotsView,
    s: Machine,
    elements: Elements,
    rounds: nat,
) -> (c: int)
    requires
        name == "map"@ || name == "filter"@,
        table.wf(),
        steady_operands(low, rounds),
        lists_work(table, s.world, elements),
        tight(s),
        method_call(low, table, segments, name, args, range, scope, at) is Ok,
        low.receiver(segments, range, scope, at) matches Ok((f, brand)) && brand is None && steady(
            f,
            at,
            rounds,
        ) && (f.ty matches Some(ty) && hof_receiver(ty) && args.len() == 1 && args[0].name is None
            && !declines(
            hof_method(
                low,
                table,
                if name == "map"@ {
                    StageMethod::Transform
                } else {
                    StageMethod::Retain
                },
                ty,
                args[0].value,
                range,
                scope,
                f.slots,
            ),
        )),
    ensures
        ({
            let g = method_call(low, table, segments, name, args, range, scope, at)->Ok_0;
            let (f, _) = low.receiver(segments, range, scope, at)->Ok_0;
            &&& finishing_operands(low, rounds) && run(f.ops, s, rounds) is Next ==> run(
                g.ops,
                s,
                rounds,
            ) is Next
            &&& run(g.ops, s, rounds) matches Flow::Next(t) ==> {
                &&& run(f.ops, s, rounds) matches Flow::Next(u)
                &&& t.stack == s.stack.push(t.operand(0))
                &&& closure_is(low, args[0].value, scope, u, f.slots, c, rounds)
                &&& elements(t.operand(0)) == if name == "map"@ {
                    mapped(s.world, elements(u.operand(0)), c)
                } else {
                    accepted(s.world, elements(u.operand(0)), c)
                }
            }
        }),
{
    reveal_strlit("map");
    reveal_strlit("filter");
    assert("map"@.len() != "filter"@.len());
    let kind = if name == "map"@ {
        StageMethod::Transform
    } else {
        StageMethod::Retain
    };
    let g = method_call(low, table, segments, name, args, range, scope, at)->Ok_0;
    let (f, _) = low.receiver(segments, range, scope, at)->Ok_0;
    let ty = f.ty->0;
    let rest = hof_method(low, table, kind, ty, args[0].value, range, scope, f.slots)->Ok_0->0;
    assert(g.ops == f.ops + rest.ops);
    lemma_run_concat(f.ops, rest.ops, 0, s, rounds);
    if let Flow::Next(u) = run(f.ops, s, rounds) {
        lemma_operand(f, at, s, at, s, rounds);
        assert(u.stack.drop_last() =~= s.stack);
        law_method_maps_or_filters(
            low,
            table,
            kind,
            ty,
            args[0].value,
            range,
            scope,
            f.slots,
            u,
            elements,
            rounds,
        )
    } else {
        0
    }
}

// ---------------------------------------------------------------------------
// Paths of indices.
// ---------------------------------------------------------------------------

/// What was found is still on top, and only slots that were free have changed.
pub open spec fn hands_on(u: Machine, v: Machine, at: SlotsView, slots: SlotsView) -> bool {
    &&& v.stack == u.stack
    &&& v.mem == u.mem
    &&& at.lets <= slots.lets
    &&& same_below(u, v, at.lets as int)
}

/// The code of a path of indices does what the codes of its indices do one behind the
/// other, each on the row that the one before has found.
pub open spec fn rows_found<L: SubLowering>(
    low: L,
    path: Seq<TokenKey>,
    range: TokenRange,
    scope: Scope<'_>,
    at: SlotsView,
    from: int,
    s: Machine,
    t: Machine,
    rounds: nat,
) -> bool
    decreases path.len() - from,
{
    if from >= path.len() {
        t == s
    } else {
        path[from] matches TokenKey::Dynamic(node, _) && (list_index(
            low,
            node,
            IrType::ListInt,
            range,
            scope,
            at,
        ) matches Ok(f) && (run(f.ops, s, rounds) matches Flow::Next(u) && exists|
            v: Machine,
            slots: SlotsView,
        |
            #[trigger] hands_on(u, v, f.slots, slots) && rows_found(
                low,
                path,
                range,
                scope,
                slots,
                from + 1,
                v,
                t,
                rounds,
            )))
    }
}

proof fn lemma_rows_behind<L: SubLowering>(
    low: L,
    path: Seq<TokenKey>,
    range: TokenRange,
    scope: Scope<'_>,
    done: Seq<TaggedOpView>,
    at: SlotsView,
    from: int,
)
    requires
        0 <= from,
    ensures
        ({
            let all = row_chain(low, path, range, scope, done, at, from);
            let own = row_chain(low, path, range, scope, Seq::empty(), at, from);
            &&& all is Ok <==> own is Ok
            &&& all is Ok ==> all->Ok_0.ops == done + own->Ok_0.ops
        }),
    decreases path.len() - from,
{
    let none = Seq::<TaggedOpView>::empty();
    if from >= path.len() {
        assert(done + none =~= done);
    } else if let TokenKey::Dynamic(node, optional) = path[from] {
        if let Ok(f) = list_index(low, node, IrType::ListInt, range, scope, at) {
            if from + 1 == path.len() {
                lemma_rows_behind(low, path, range, scope, done + f.ops, f.slots, from + 1);
                lemma_rows_behind(low, path, range, scope, none + f.ops, f.slots, from + 1);
                assert(done + (none + f.ops) =~= done + f.ops);
            } else {
                let handle = f.slots.lets;
                let set = let_set(handle, IrType::ListInt, range);
                let get = let_get(handle, IrType::ListInt, range);
                let next = f.slots.after(1);
                let first = (done + f.ops).push(set).push(get);
                let second = (none + f.ops).push(set).push(get);
                lemma_rows_behind(low, path, range, scope, first, next, from + 1);
                lemma_rows_behind(low, path, range, scope, second, next, from + 1);
                let rest = row_chain(low, path, range, scope, none, next, from + 1);
                if rest is Ok {
                    assert(first + rest->Ok_0.ops =~= done + (second + rest->Ok_0.ops));
                }
            }
        }
    } else {
        assert(done + none =~= done);
    }
}

/// A path of indices goes from row to row: each index is looked up in the row that the
/// index before it has found, and every index counts.
pub proof fn law_index_path_goes_from_row_to_row<L: SubLowering>(
    low: L,
    path: Seq<TokenKey>,
    range: TokenRange,
    scope: Scope<'_>,
    at: SlotsView,
    from: int,
    s: Machine,
    rounds: nat,
)
    requires
        0 <= from <= path.len(),
        forall|i: int| from <= i < path.len() ==> (#[trigger] path[i]) is Dynamic,
        forall|node: Node, slots: SlotsView| (#[trigger] list_index(
            low,
            node,
            IrType::ListInt,
            range,
            scope,
            slots,
        )) matches Ok(f) ==> slots.lets <= f.slots.lets && forall|w: Machine|
            w.stack.len() > 0 ==> ((#[trigger] run(f.ops, w, rounds)) matches Flow::Next(u)
                ==> u.stack.len() > 0),
        s.stack.len() > 0,
        row_chain(low, path, range, scope, Seq::empty(), at, from) is Ok,
    ensures
        ({
            let g = row_chain(low, path, range, scope, Seq::empty(), at, from)->Ok_0;
            run(g.ops, s, rounds) matches Flow::Next(t) ==> rows_found(
                low,
                path,
                range,
                scope,
                at,
                from,
                s,
                t,
                rounds,
            )
        }),
    decreases path.len() - from,
{
    let none = Seq::<TaggedOpView>::empty();
    let g = row_chain(low, path, range, scope, none, at, from)->Ok_0;
    if from >= path.len() {
        assert(run(none, s, rounds) == Flow::Next(s));
    } else {
        assert(path[from] is Dynamic);
        let node = path[from]->Dynamic_0;
        let f = list_index(low, node, IrType::ListInt, range, scope, at)->Ok_0;
        assert(at.lets <= f.slots.lets);
        if from + 1 == path.len() {
            let code = none + f.ops;
            assert(code =~= f.ops);
            let end = row_chain(low, path, range, scope, code, f.slots, from + 1)->Ok_0;
            assert(end.ops == code);
            assert(g.ops == f.ops);
            if let Flow::Next(t) = run(f.ops, s, rounds) {
                assert(hands_on(t, t, f.slots, f.slots));
                assert(rows_found(low, path, range, scope, f.slots, from + 1, t, t, rounds));
                assert(rows_found(low, path, range, scope, at, from, s, t, rounds));
            }
        } else {
            let handle = f.slots.lets;
            let set = let_set(handle, IrType::ListInt, range);
            let get = let_get(handle, IrType::ListInt, range);
            let next = f.slots.after(1);
            let front = (none + f.ops).push(set).push(get);
            lemma_rows_behind(low, path, range, scope, front, next, from + 1);
            let rest = row_chain(low, path, range, scope, none, next, from + 1)->Ok_0;
            lemma_run_concat(front, rest.ops, 0, s, rounds);
            let two = seq![set, get];
            assert(front =~= f.ops + two);
            lemma_run_concat(f.ops, two, 0, s, rounds);
            if let Flow::Next(u) = run(f.ops, s, rounds) {
                let w = u.popped(1).with_let(handle, u.operand(0));
                let v = w.pushed(u.operand(0));
                lemma_single(
                    SimpleOp::LetSet { idx: handle, ty: IrType::ListInt },
                    range,
                    u,
                    w,
                    rounds,
                );
                lemma_one_more(
                    seq![set],
                    SimpleOp::LetGet { idx: handle, ty: IrType::ListInt },
                    range,
                    u,
                    w,
                    v,
                    rounds,
                );
                assert(two =~= seq![set].push(get));
                assert(v.stack =~= u.stack);
                law_index_path_goes_from_row_to_row(
                    low,
                    path,
                    range,
                    scope,
                    next,
                    from + 1,
                    v,
                    rounds,
                );
                if let Flow::Next(t) = run(rest.ops, v, rounds) {
                    assert(hands_on(u, v, f.slots, next));
                    assert(rows_found(low, path, range, scope, next, from + 1, v, t, rounds));
                    assert(rows_found(low, path, range, scope, at, from, s, t, rounds));
                }
            }
        }
    }
}

// ---------------------------------------------------------------------------
// Host functions.
// ---------------------------------------------------------------------------

/// The entry is what the declaration says: the types of its parameters in their order,
/// its result, and the bits of the first gate of its name, or none.
pub open spec fn as_declared(
    sig: HostFnSignature,
    gates: NameTable<NativeFnGate>,
    name: Seq<char>,
    entry: EntryView,
) -> bool {
    &&& entry.param_tys.len() == sig.params@.len()
    &&& forall|j: int|
        0 <= j < sig.params@.len() ==> native_ir_type(#[trigger] sig.params@[j]) == Some(
            entry.param_tys[j],
        )
    &&& native_ir_type(sig.return_type) == Some(entry.ret_ty)
    &&& (forall|k: int| 0 <= k < gates.entries@.len() ==> (#[trigger] gates.entries@[k]).0@ != name)
        ==> entry.required_bits.len() == 0
    &&& forall|k: int|
        0 <= k < gates.entries@.len() && (#[trigger] gates.entries@[k]).0@ == name && (forall|
            m: int,
        |
            0 <= m < k ==> (#[trigger] gates.entries@[m]).0@ != name) ==> entry.required_bits
            == gates.entries@[k].1.bits@
}

proof fn lemma_native_types(ts: Seq<TypeNode>)
    ensures
        native_types(ts) matches Some(tys) ==> tys.len() == ts.len() && forall|j: int|
            0 <= j < ts.len() ==> native_ir_type(#[trigger] ts[j]) == Some(tys[j]),
        native_types(ts) is None ==> exists|j: int|
            0 <= j < ts.len() && native_ir_type(#[trigger] ts[j]) is None,
    decreases ts.len(),
{
    if ts.len() > 0 {
        let before = ts.drop_last();
        lemma_native_types(before);
        assert(ts[ts.len() - 1] == ts.last());
        if let Some(tys) = native_types(ts) {
            assert forall|j: int| 0 <= j < ts.len() implies native_ir_type(#[trigger] ts[j])
                == Some(tys[j]) by {
                if j < before.len() {
                    assert(before[j] == ts[j]);
                }
            }
        } else if native_types(before) is None {
            let j = choose|j: int|
                0 <= j < before.len() && native_ir_type(#[trigger] before[j]) is None;
            assert(ts[j] == before[j]);
        }
    }
}

/// A host function is resolved as it is declared, and it is resolved where each of its
/// types is one that a host call can carry.
pub proof fn law_host_function_is_resolved_as_declared(
    sig: HostFnSignature,
    gates: NameTable<NativeFnGate>,
    name: Seq<char>,
)
    ensures
        resolve_entry(sig, gates, name) is Some <==> native_ir_type(sig.return_type) is Some
            && forall|j: int|
            0 <= j < sig.params@.len() ==> native_ir_type(#[trigger] sig.params@[j]) is Some,
        resolve_entry(sig, gates, name) matches Some(entry) ==> as_declared(
            sig,
            gates,
            name,
            entry,
        ),
{
    lemma_native_types(sig.params@);
    lemma_name_index(gates.entries@, name, 0);
    if let Some(entry) = resolve_entry(sig, gates, name) {
        assert forall|k: int|
            0 <= k < gates.entries@.len() && (#[trigger] gates.entries@[k]).0@ == name && (forall|
                m: int,
            |
                0 <= m < k ==> (#[trigger] gates.entries@[m]).0@
                    != name) implies entry.required_bits == gates.entries@[k].1.bits@ by {
            law_first_entry_counts(gates.entries@, name, 0, k);
        }
    }
}

/// The resolved host functions are those of the declared ones that can be resolved, in
/// the order of their declaration, under their names.
pub proof fn law_host_functions_keep_their_order(
    sigs: Seq<(String, HostFnSignature)>,
    gates: NameTable<NativeFnGate>,
)
    ensures
        resolve_all(sigs, gates) == sigs.filter_map(
            |d: (String, HostFnSignature)|
                match resolve_entry(d.1, gates, d.0@) {
                    Some(entry) => Some((d.0@, entry)),
                    None => None,
                },
        ),
    decreases sigs.len(),
{
    reveal(Seq::filter_map);
    if sigs.len() > 0 {
        let before = sigs.drop_last();
        law_host_functions_keep_their_order(before, gates);
        if let Some(entry) = resolve_entry(sigs.last().1, gates, sigs.last().0@) {
            let one = (sigs.last().0@, entry);
            let rest = resolve_all(before, gates);
            assert(rest.push(one) =~= rest + seq![one]);
        }
    }
}

/// A text comes before another where it is a proper beginning of it, or where the
/// first letter in which they differ comes before the other one.
pub proof fn law_texts_are_ordered_by_their_first_difference(a: Seq<char>, b: Seq<char>, k: int)
    requires
        0 <= k <= a.len(),
        k <= b.len(),
        a.take(k) == b.take(k),
        k < a.len() && k < b.len() ==> a[k] != b[k],
        k < a.len() || k < b.len(),
    ensures
        text_less(a, b) <==> k < b.len() && (k == a.len() || (a[k] as int) < (b[k] as int)),
    decreases k,
{
    if k > 0 {
        assert(a[0] == a.take(k)[0]);
        assert(b[0] == b.take(k)[0]);
        let x = a.drop_first();
        let y = b.drop_first();
        assert(x.take(k - 1) =~= a.take(k).drop_first());
        assert(y.take(k - 1) =~= b.take(k).drop_first());
        law_texts_are_ordered_by_their_first_difference(x, y, k - 1);
    }
}

} // verus!

//! What a call of a host function or of a closure hands over and asks for.

use vstd::prelude::*;

use crate::ast::{plain_name, CallArg, TokenKey, TokenRange};
use crate::calls::{closure_args, local_closure_call, CallLowering};
use crate::emit_order::resolved;
use crate::fragment::{let_get, Scope, SigView, SlotsView, SubLowering};
use crate::ir::{sop, IrType, SimpleOp, TaggedOpView};
use crate::meaning::{
    call_op_step, lemma_run_concat, lemma_simple, record_op_step, run, run_from, step, Flow,
    Machine,
};
use crate::meaning_args::{lemma_operand, value_is};
use crate::meaning_calls::{finishing_operands, steady_operands};
use crate::meaning_records::lemma_single;
use crate::meaning_stores::{steady, tight, undisturbed};
use crate::names::{law_first_entry_counts, NameTable};
use crate::native_import::{
    cap_checks, law_intern_import_stable, native_args, native_call, HostFnEntry,
};

verus! {

// ---------------------------------------------------------------------------
// Host functions.
// ---------------------------------------------------------------------------

/// The arguments leave their values in their order.
proof fn lemma_native_args<L: SubLowering>(
    low: L,
    name: Seq<char>,
    args: Seq<CallArg>,
    tys: Seq<IrType>,
    range: TokenRange,
    scope: Scope<'_>,
    at: SlotsView,
    s: Machine,
    rounds: nat,
) -> (values: Seq<int>)
    requires
        steady_operands(low, rounds),
        tight(s),
        native_args(low, name, args, tys, range, scope, at) is Ok,
    ensures
        ({
            let g = native_args(low, name, args, tys, range, scope, at)->Ok_0;
            &&& at.lets <= g.slots.lets
            &&& at.records <= g.slots.records
            &&& finishing_operands(low, rounds) ==> run(g.ops, s, rounds) is Next
            &&& run(g.ops, s, rounds) matches Flow::Next(t) ==> {
                &&& values.len() == args.len()
                &&& t.stack == s.stack + values
                &&& tight(t)
                &&& undisturbed(s, t, at, s.free, s.free)
                &&& forall|i: int|
                    0 <= i < args.len() ==> value_is(
                        low,
                        (#[trigger] args[i]).value,
                        scope,
                        s,
                        at,
                        values[i],
                        rounds,
                    )
            }
        }),
    decreases args.len(),
{
    if args.len() == 0 {
        let none = Seq::<int>::empty();
        assert(s.stack + none =~= s.stack);
        assert(run(Seq::<TaggedOpView>::empty(), s, rounds) == Flow::Next(s));
        none
    } else {
        let before = args.drop_last();
        let first = lemma_native_args(low, name, before, tys, range, scope, at, s, rounds);
        let pre = native_args(low, name, before, tys, range, scope, at)->Ok_0;
        let f = low.lowered(args.last().value, scope, pre.slots)->Ok_0;
        assert(steady(f, pre.slots, rounds));
        lemma_run_concat(pre.ops, f.ops, 0, s, rounds);
        if let Flow::Next(w) = run(pre.ops, s, rounds) {
            lemma_operand(f, pre.slots, s, at, w, rounds);
            if finishing_operands(low, rounds) {
                assert(run(
                    low.lowered(args.last().value, scope, pre.slots)->Ok_0.ops,
                    w,
                    rounds,
                ) is Next);
            }
            if let Flow::Next(t) = run(f.ops, w, rounds) {
                let v = t.operand(0);
                let values = first.push(v);
                assert(t.stack =~= s.stack + values);
                assert forall|i: int| 0 <= i < args.len() implies value_is(
                    low,
                    (#[trigger] args[i]).value,
                    scope,
                    s,
                    at,
                    values[i],
                    rounds,
                ) by {
                    if i < before.len() {
                        assert(before[i] == args[i]);
                    }
                }
                values
            } else {
                first
            }
        } else {
            first
        }
    }
}

/// A row of checks goes on when each is granted, and traps when one is not.
proof fn lemma_checks(bits: Seq<u32>, range: TokenRange, s: Machine, rounds: nat)
    ensures
        (forall|i: int| 0 <= i < bits.len() ==> (s.world.granted)(#[trigger] bits[i])) ==> run(
            cap_checks(bits, range),
            s,
            rounds,
        ) == Flow::Next(s),
        !(forall|i: int| 0 <= i < bits.len() ==> (s.world.granted)(#[trigger] bits[i])) ==> run(
            cap_checks(bits, range),
            s,
            rounds,
        ) == Flow::Trap,
    decreases bits.len(),
{
    reveal(record_op_step);
    if bits.len() > 0 {
        let before = bits.drop_last();
        lemma_checks(before, range, s, rounds);
        let last = seq![sop(SimpleOp::CheckCap { cap_bit: bits.last() }, range)];
        assert(cap_checks(bits, range) =~= cap_checks(before, range) + last);
        lemma_run_concat(cap_checks(before, range), last, 0, s, rounds);
        lemma_simple(last, 0, SimpleOp::CheckCap { cap_bit: bits.last() }, s, rounds);
        assert(run_from(last, 1, s, rounds) == Flow::Next(s));
        assert forall|i: int| 0 <= i < before.len() implies before[i] == #[trigger] bits[i] by {}
        if forall|i: int| 0 <= i < before.len() ==> (s.world.granted)(#[trigger] before[i]) {
            assert forall|i: int|
                0 <= i < bits.len() && (s.world.granted)(bits.last()) implies (s.world.granted)(
                #[trigger] bits[i],
            ) by {
                if i < before.len() {
                    assert(before[i] == bits[i]);
                }
            }
            assert(bits[bits.len() - 1] == bits.last());
        } else {
            let k = choose|i: int| 0 <= i < before.len() && !(s.world.granted)(
                #[trigger] before[i],
            );
            assert(bits[k] == before[k]);
        }
    } else {
        assert(cap_checks(bits, range) =~= Seq::<TaggedOpView>::empty());
    }
}

/// A call of a host function traps, before any argument is evaluated, unless
/// each capability that the function requires is granted. Otherwise the function
/// that the module imports under the name of the call gets the values of the
/// arguments in their order.
pub proof fn law_host_call_is_guarded<L: SubLowering>(
    low: L,
    resolved: NameTable<HostFnEntry>,
    which: int,
    args: Seq<CallArg>,
    range: TokenRange,
    scope: Scope<'_>,
    at: SlotsView,
    s: Machine,
    rounds: nat,
) -> (values: Seq<int>)
    requires
        steady_operands(low, rounds),
        tight(s),
        0 <= which < resolved.entries@.len(),
        forall|j: int|
            0 <= j < which ==> (#[trigger] resolved.entries@[j]).0@
                != resolved.entries@[which].0@,
        native_call(
            low,
            resolved,
            resolved.entries@[which].0@,
            args,
            range,
            scope,
            at,
        ) matches Ok(Some(g)) && g.slots.imports.len() <= u32::MAX,
    ensures
        ({
            let (name, entry) = resolved.entries@[which];
            let g = native_call(low, resolved, name@, args, range, scope, at)->Ok_0->0;
            let granted = forall|i: int|
                0 <= i < entry.required_bits@.len() ==> (s.world.granted)(
                    #[trigger] entry.required_bits@[i],
                );
            &&& g.ty == Some(entry.ret_ty)
            &&& !granted ==> run(g.ops, s, rounds) == Flow::Trap
            &&& granted && finishing_operands(low, rounds) ==> run(g.ops, s, rounds) is Next
            &&& run(g.ops, s, rounds) matches Flow::Next(t) ==> {
                &&& values.len() == args.len()
                &&& exists|k: u32|
                    k < g.slots.imports.len() && (#[trigger] g.slots.imports[k as int]).name
                        == name@ && t.stack == s.stack.push((s.world.native)(k, values))
                &&& forall|i: int|
                    0 <= i < args.len() ==> value_is(
                        low,
                        (#[trigger] args[i]).value,
                        scope,
                        s,
                        at,
                        values[i],
                        rounds,
                    )
            }
        }),
{
    reveal(call_op_step);
    let name = resolved.entries@[which].0@;
    let entry = resolved.entries@[which].1@;
    law_first_entry_counts(resolved.entries@, name, 0, which);
    let g = native_call(low, resolved, name, args, range, scope, at)->Ok_0->0;
    let f = native_args(low, name, args, entry.param_tys, range, scope, at)->Ok_0;
    let checks = cap_checks(entry.required_bits, range);
    lemma_checks(entry.required_bits, range, s, rounds);
    let values = lemma_native_args(
        low,
        name,
        args,
        entry.param_tys,
        range,
        scope,
        at,
        s,
        rounds,
    );
    let call = g.ops.last();
    let last = seq![call];
    let k = f.slots.import_number(name, entry);
    law_intern_import_stable(f.slots.imports, name, entry);
    assert(g.slots.imports[k as int].name == name);
    assert(g.ops =~= (checks + f.ops) + last);
    lemma_run_concat(checks + f.ops, last, 0, s, rounds);
    lemma_run_concat(checks, f.ops, 0, s, rounds);
    if run(checks, s, rounds) == Flow::Next(s) {
        if let Flow::Next(u) = run(f.ops, s, rounds) {
            assert(u.topmost(args.len() as int) =~= values);
            assert(u.popped(args.len() as int).stack =~= s.stack);
            let t = u.popped(args.len() as int).pushed((s.world.native)(k, values));
            assert(step(call, u, rounds) == Flow::Next(t));
            assert(last[0] == call);
            assert(run_from(last, 1, t, rounds) == Flow::Next(t));
            assert(run_from(last, 0, u, rounds) == Flow::Next(t));
        }
    }
    values
}

// ---------------------------------------------------------------------------
// Closures.
// ---------------------------------------------------------------------------

proof fn lemma_closure_args_behind<L: CallLowering>(
    low: L,
    name: Seq<char>,
    sig: SigView,
    args: Seq<CallArg>,
    range: TokenRange,
    scope: Scope<'_>,
    done: Seq<TaggedOpView>,
    at: SlotsView,
    from: int,
)
    requires
        0 <= from,
        forall|i: int| 0 <= i < sig.coercible.len() ==> !#[trigger] sig.coercible[i],
    ensures
        ({
            let none = Seq::<TaggedOpView>::empty();
            let all = closure_args(low, name, sig, args, range, scope, done, at, from);
            let own = closure_args(low, name, sig, args, range, scope, none, at, from);
            &&& all is Ok <==> own is Ok
            &&& all is Ok ==> all->Ok_0.ops == done + own->Ok_0.ops
            &&& all is Ok ==> all->Ok_0.slots == own->Ok_0.slots
        }),
    decreases args.len() - from,
{
    let none = Seq::<TaggedOpView>::empty();
    if from >= args.len() {
        assert(done + none =~= done);
    } else if args[from].name is None {
        if let Ok(f) = low.lowered(args[from].value, scope, at) {
            let next = from + 1;
            lemma_closure_args_behind(
                low,
                name,
                sig,
                args,
                range,
                scope,
                done + f.ops,
                f.slots,
                next,
            );
            lemma_closure_args_behind(
                low,
                name,
                sig,
                args,
                range,
                scope,
                none + f.ops,
                f.slots,
                next,
            );
            if let Ok(rest) = closure_args(
                low,
                name,
                sig,
                args,
                range,
                scope,
                none,
                f.slots,
                next,
            ) {
                assert((done + f.ops) + rest.ops =~= done + ((none + f.ops) + rest.ops));
            }
        }
    }
}

proof fn lemma_closure_args<L: CallLowering>(
    low: L,
    name: Seq<char>,
    sig: SigView,
    args: Seq<CallArg>,
    range: TokenRange,
    scope: Scope<'_>,
    at: SlotsView,
    from: int,
    first: Machine,
    start: SlotsView,
    w: Machine,
    rounds: nat,
) -> (values: Seq<int>)
    requires
        0 <= from <= args.len(),
        steady_operands(low, rounds),
        forall|i: int| 0 <= i < sig.coercible.len() ==> !#[trigger] sig.coercible[i],
        tight(w),
        undisturbed(first, w, start, first.free, first.free),
        start.lets <= at.lets,
        start.records <= at.records,
    ensures
        closure_args(
            low,
            name,
            sig,
            args,
            range,
            scope,
            Seq::empty(),
            at,
            from,
        ) matches Ok(g) ==> {
            &&& finishing_operands(low, rounds) ==> run(g.ops, w, rounds) is Next
            &&& run(g.ops, w, rounds) matches Flow::Next(t) ==> {
                &&& values.len() == args.len() - from
                &&& t.stack == w.stack + values
                &&& t.world == first.world
                &&& forall|i: int|
                    from <= i < args.len() ==> value_is(
                        low,
                        (#[trigger] args[i]).value,
                        scope,
                        first,
                        start,
                        values[i - from],
                        rounds,
                    )
            }
        },
    decreases args.len() - from,
{
    let none = Seq::<TaggedOpView>::empty();
    if from >= args.len() {
        assert(w.stack + Seq::<int>::empty() =~= w.stack);
        assert(run(none, w, rounds) == Flow::Next(w));
        Seq::empty()
    } else {
        let node = args[from].value;
        let lowered = low.lowered(node, scope, at);
        if lowered is Ok && lowered->Ok_0.ty is Some {
            let f = lowered->Ok_0;
            assert(steady(f, at, rounds));
            let before = none + f.ops;
            assert(before =~= f.ops);
            let next = from + 1;
            lemma_closure_args_behind(
                low,
                name,
                sig,
                args,
                range,
                scope,
                before,
                f.slots,
                next,
            );
            lemma_operand(f, at, first, start, w, rounds);
            if finishing_operands(low, rounds) {
                assert(run(low.lowered(node, scope, at)->Ok_0.ops, w, rounds) is Next);
            }
            let rest = closure_args(low, name, sig, args, range, scope, none, f.slots, next);
            if rest is Ok {
                lemma_run_concat(f.ops, rest->Ok_0.ops, 0, w, rounds);
            }
            if let Flow::Next(u) = run(f.ops, w, rounds) {
                let more = lemma_closure_args(
                    low,
                    name,
                    sig,
                    args,
                    range,
                    scope,
                    f.slots,
                    next,
                    first,
                    start,
                    u,
                    rounds,
                );
                let v = u.operand(0);
                let values = seq![v] + more;
                assert(u.stack + more =~= w.stack + values);
                assert(value_is(low, node, scope, first, start, v, rounds));
                values
            } else {
                Seq::empty()
            }
        } else {
            Seq::empty()
        }
    }
}

/// A call of a closure that a name is bound to hands the closure, and behind it
/// the values of the arguments in their order, to the closures of the world.
pub proof fn law_closure_gets_its_arguments<L: CallLowering>(
    low: L,
    path: Seq<TokenKey>,
    args: Seq<CallArg>,
    range: TokenRange,
    scope: Scope<'_>,
    at: SlotsView,
    s: Machine,
    rounds: nat,
) -> (values: Seq<int>)
    requires
        steady_operands(low, rounds),
        tight(s),
        local_closure_call(low, path, args, range, scope, at) matches Ok(Some(_)),
        ({
            let b = scope.find(plain_name(path)->0)->0;
            &&& s.lets.dom().contains(b.idx)
            &&& b.idx < at.lets
            &&& forall|i: int|
                0 <= i < b.closure->0@.coercible.len()
                    ==> !#[trigger] b.closure->0@.coercible[i]
        }),
    ensures
        ({
            let g = local_closure_call(low, path, args, range, scope, at)->Ok_0->0;
            let b = scope.find(plain_name(path)->0)->0;
            &&& finishing_operands(low, rounds) ==> run(g.ops, s, rounds) is Next
            &&& run(g.ops, s, rounds) matches Flow::Next(t) ==> {
                &&& values.len() == args.len()
                &&& t.stack == s.stack.push(
                    (s.world.closure)(seq![s.lets[b.idx]] + values),
                )
                &&& forall|i: int|
                    0 <= i < args.len() ==> value_is(
                        low,
                        (#[trigger] args[i]).value,
                        scope,
                        s,
                        at,
                        values[i],
                        rounds,
                    )
            }
        }),
{
    reveal(call_op_step);
    let g = local_closure_call(low, path, args, range, scope, at)->Ok_0->0;
    let name = plain_name(path)->0;
    let b = scope.find(name)->0;
    let sig = b.closure->0@;
    let none = Seq::<TaggedOpView>::empty();
    let handle = seq![let_get(b.idx, IrType::Closure, range)];
    let all = closure_args(low, name, sig, args, range, scope, handle, at, 0)->Ok_0;
    let own = closure_args(low, name, sig, args, range, scope, none, at, 0)->Ok_0;
    lemma_closure_args_behind(low, name, sig, args, range, scope, handle, at, 0);
    let w = s.pushed(s.lets[b.idx]);
    lemma_single(
        SimpleOp::LetGet { idx: b.idx, ty: IrType::Closure },
        range,
        s,
        w,
        rounds,
    );
    let values = lemma_closure_args(
        low,
        name,
        sig,
        args,
        range,
        scope,
        at,
        0,
        s,
        at,
        w,
        rounds,
    );
    let call = g.ops.last();
    let last = seq![call];
    assert(g.ops =~= all.ops + last);
    lemma_run_concat(all.ops, last, 0, s, rounds);
    lemma_run_concat(handle, own.ops, 0, s, rounds);
    if let Flow::Next(u) = run(own.ops, w, rounds) {
        let full = seq![s.lets[b.idx]] + values;
        let arity = args.len() as int + 1;
        assert(u.stack =~= s.stack + full);
        assert(u.topmost(arity) =~= full);
        assert(u.popped(arity).stack =~= s.stack);
        let t = u.popped(arity).pushed((s.world.closure)(full));
        assert(last[0] == call);
        assert(step(call, u, rounds) == Flow::Next(t));
        assert(run_from(last, 1, t, rounds) == Flow::Next(t));
        assert(run_from(last, 0, u, rounds) == Flow::Next(t));
    }
    values
}

} // verus!

//! What calls hand over: the values of their arguments, in their order.

use vstd::prelude::*;

use crate::ast::{CallArg, Node, TokenRange};
use crate::calls::{free_call, routine_args, routine_called, routine_method, CallLowering};
use crate::emit_order::resolved;
use crate::error::ErrorView;
use crate::fragment::{FragmentView, Scope, SlotsView, SubLowering};
use crate::ir::{IrType, TaggedOpView};
use crate::meaning::{call_op_step, lemma_run_concat, run, run_from, step, Flow, Machine};
use crate::meaning_calls::{answered, finishing_operands, routine_named, steady_operands};
use crate::meaning_stores::{evaluates, lemma_undisturbed_chain, steady, tight, undisturbed};
use crate::names::NameTable;
use crate::native_import::HostFnEntry;
use crate::stdlib::{find_from, StdlibEntry, StdlibTable};

verus! {

/// What is asked for besides expressions leaves one value and disturbs nothing,
/// where it leaves something.
pub open spec fn steady_calls<L: CallLowering>(low: L, rounds: nat) -> bool {
    &&& steady_operands(low, rounds)
    &&& forall|
        routine: Seq<char>,
        index: int,
        value: Node,
        lowered: Result<FragmentView, ErrorView>,
        params: Seq<IrType>,
        range: TokenRange,
        scope: Scope<'_>,
        at: SlotsView,
    |
        (#[trigger] low.stdlib_arg(
            routine,
            index,
            value,
            lowered,
            params,
            range,
            scope,
            at,
        )) matches Ok(f) ==> steady(f, at, rounds)
}

/// The code of arguments comes to its end.
pub open spec fn finishing_calls<L: CallLowering>(low: L, rounds: nat) -> bool {
    &&& finishing_operands(low, rounds)
    &&& forall|
        routine: Seq<char>,
        index: int,
        value: Node,
        lowered: Result<FragmentView, ErrorView>,
        params: Seq<IrType>,
        range: TokenRange,
        scope: Scope<'_>,
        at: SlotsView,
        s: Machine,
    |
        low.stdlib_arg(routine, index, value, lowered, params, range, scope, at) is Ok && tight(s)
            ==> (#[trigger] run(
            low.stdlib_arg(
                routine,
                index,
                value,
                lowered,
                params,
                range,
                scope,
                at,
            )->Ok_0.ops,
            s,
            rounds,
        )) is Next
}

/// The expression leaves `v` where the machine knows all that it knew at first.
pub open spec fn value_is<L: SubLowering>(
    low: L,
    node: Node,
    scope: Scope<'_>,
    s: Machine,
    at: SlotsView,
    v: int,
    rounds: nat,
) -> bool {
    exists|slots: SlotsView, u: Machine, t: Machine|
        #![trigger evaluates(
            low.lowered(node, scope, slots)->Ok_0.ops,
            s,
            at,
            s.free,
            s.free,
            u,
            t,
            v,
            rounds,
        )]
        low.lowered(node, scope, slots) is Ok && evaluates(
            low.lowered(node, scope, slots)->Ok_0.ops,
            s,
            at,
            s.free,
            s.free,
            u,
            t,
            v,
            rounds,
        )
}

/// The argument of a routine leaves `v`: it is handed over as the parameter of
/// the given number.
pub open spec fn argument_is<L: CallLowering>(
    low: L,
    routine: Seq<char>,
    index: int,
    node: Node,
    params: Seq<IrType>,
    range: TokenRange,
    scope: Scope<'_>,
    s: Machine,
    at: SlotsView,
    v: int,
    rounds: nat,
) -> bool {
    exists|slots: SlotsView, u: Machine, t: Machine|
        #![trigger evaluates(
            low.stdlib_arg(
                routine,
                index,
                node,
                low.lowered(node, scope, slots),
                params,
                range,
                scope,
                slots,
            )->Ok_0.ops,
            s,
            at,
            s.free,
            s.free,
            u,
            t,
            v,
            rounds,
        )]
        low.stdlib_arg(
            routine,
            index,
            node,
            low.lowered(node, scope, slots),
            params,
            range,
            scope,
            slots,
        ) is Ok && evaluates(
            low.stdlib_arg(
                routine,
                index,
                node,
                low.lowered(node, scope, slots),
                params,
                range,
                scope,
                slots,
            )->Ok_0.ops,
            s,
            at,
            s.free,
            s.free,
            u,
            t,
            v,
            rounds,
        )
}

/// A steady fragment, run where nothing has been disturbed.
pub proof fn lemma_operand(
    f: FragmentView,
    at: SlotsView,
    first: Machine,
    start: SlotsView,
    w: Machine,
    rounds: nat,
)
    requires
        tight(w),
        undisturbed(first, w, start, first.free, first.free),
        start.lets <= at.lets,
        start.records <= at.records,
        steady(f, at, rounds),
    ensures
        run(f.ops, w, rounds) matches Flow::Next(t) ==> {
            &&& tight(t)
            &&& undisturbed(first, t, start, first.free, first.free)
            &&& t.stack == w.stack.push(t.operand(0))
            &&& evaluates(
                f.ops,
                first,
                start,
                first.free,
                first.free,
                w,
                t,
                t.operand(0),
                rounds,
            )
        },
{
    if let Flow::Next(t) = run(f.ops, w, rounds) {
        lemma_undisturbed_chain(first, w, t, start, at, first.free, first.free);
    }
}

// ---------------------------------------------------------------------------
// Routines.
// ---------------------------------------------------------------------------

/// What stands before the arguments stays before them.
proof fn lemma_args_behind<L: CallLowering>(
    low: L,
    method: Seq<char>,
    routine: Seq<char>,
    params: Seq<IrType>,
    shift: int,
    args: Seq<CallArg>,
    range: TokenRange,
    scope: Scope<'_>,
    done: Seq<TaggedOpView>,
    at: SlotsView,
    from: int,
)
    requires
        0 <= from,
    ensures
        ({
            let all = routine_args(
                low,
                method,
                routine,
                params,
                shift,
                args,
                range,
                scope,
                done,
                at,
                from,
            );
            let own = routine_args(
                low,
                method,
                routine,
                params,
                shift,
                args,
                range,
                scope,
                Seq::empty(),
                at,
                from,
            );
            &&& all is Ok <==> own is Ok
            &&& all is Ok ==> all->Ok_0.ops == done + own->Ok_0.ops
            &&& all is Ok ==> all->Ok_0.slots == own->Ok_0.slots
        }),
    decreases args.len() - from,
{
    if from < args.len() && args[from].name is None {
        if let Ok(f) = low.stdlib_arg(
            routine,
            from + shift,
            args[from].value,
            low.lowered(args[from].value, scope, at),
            params,
            range,
            scope,
            at,
        ) {
            lemma_args_behind(
                low,
                method,
                routine,
                params,
                shift,
                args,
                range,
                scope,
                done + f.ops,
                f.slots,
                from + 1,
            );
            lemma_args_behind(
                low,
                method,
                routine,
                params,
                shift,
                args,
                range,
                scope,
                Seq::empty() + f.ops,
                f.slots,
                from + 1,
            );
            if let Ok(rest) = routine_args(
                low,
                method,
                routine,
                params,
                shift,
                args,
                range,
                scope,
                Seq::empty(),
                f.slots,
                from + 1,
            ) {
                assert((done + f.ops) + rest.ops =~= done + ((Seq::empty() + f.ops) + rest.ops));
            }
        }
    } else if from >= args.len() {
        assert(done + Seq::<TaggedOpView>::empty() =~= done);
    }
}

/// The arguments at and behind `from` leave their values one behind the other.
proof fn lemma_routine_args<L: CallLowering>(
    low: L,
    method: Seq<char>,
    routine: Seq<char>,
    params: Seq<IrType>,
    shift: int,
    args: Seq<CallArg>,
    range: TokenRange,
    scope: Scope<'_>,
    at: SlotsView,
    from: int,
    first: Machine,
    start: SlotsView,
    w: Machine,
    rounds: nat,
) -> (values: Seq<int>)
    requires
        0 <= from <= args.len(),
        steady_calls(low, rounds),
        tight(w),
        undisturbed(first, w, start, first.free, first.free),
        start.lets <= at.lets,
        start.records <= at.records,
    ensures
        routine_args(
            low,
            method,
            routine,
            params,
            shift,
            args,
            range,
            scope,
            Seq::empty(),
            at,
            from,
        ) matches Ok(g) ==> {
            &&& finishing_calls(low, rounds) ==> run(g.ops, w, rounds) is Next
            &&& run(g.ops, w, rounds) matches Flow::Next(t) ==> {
                &&& values.len() == args.len() - from
                &&& t.stack == w.stack + values
                &&& tight(t)
                &&& undisturbed(first, t, start, first.free, first.free)
                &&& forall|i: int|
                    from <= i < args.len() ==> args[i].name is None && argument_is(
                        low,
                        routine,
                        i + shift,
                        (#[trigger] args[i]).value,
                        params,
                        range,
                        scope,
                        first,
                        start,
                        values[i - from],
                        rounds,
                    )
            }
        },
    decreases args.len() - from,
{
    if from >= args.len() {
        let none = Seq::<int>::empty();
        assert(w.stack + none =~= w.stack);
        assert(run(Seq::<TaggedOpView>::empty(), w, rounds) == Flow::Next(w));
        none
    } else {
        let node = args[from].value;
        let lowered = low.lowered(node, scope, at);
        match low.stdlib_arg(routine, from + shift, node, lowered, params, range, scope, at) {
            Err(_) => Seq::empty(),
            Ok(f) => {
                assert(steady(f, at, rounds));
                let before = Seq::<TaggedOpView>::empty() + f.ops;
                assert(before =~= f.ops);
                lemma_args_behind(
                    low,
                    method,
                    routine,
                    params,
                    shift,
                    args,
                    range,
                    scope,
                    before,
                    f.slots,
                    from + 1,
                );
                lemma_operand(f, at, first, start, w, rounds);
                if finishing_calls(low, rounds) {
                    assert(run(
                        low.stdlib_arg(
                            routine,
                            from + shift,
                            node,
                            lowered,
                            params,
                            range,
                            scope,
                            at,
                        )->Ok_0.ops,
                        w,
                        rounds,
                    ) is Next);
                }
                let u = run(f.ops, w, rounds)->Next_0;
                let rest = routine_args(
                    low,
                    method,
                    routine,
                    params,
                    shift,
                    args,
                    range,
                    scope,
                    Seq::empty(),
                    f.slots,
                    from + 1,
                );
                if rest is Ok {
                    lemma_run_concat(f.ops, rest->Ok_0.ops, 0, w, rounds);
                }
                if run(f.ops, w, rounds) is Next {
                    let more = lemma_routine_args(
                        low,
                        method,
                        routine,
                        params,
                        shift,
                        args,
                        range,
                        scope,
                        f.slots,
                        from + 1,
                        first,
                        start,
                        u,
                        rounds,
                    );
                    let v = u.operand(0);
                    let values = seq![v] + more;
                    assert(u.stack + more =~= w.stack + values);
                    assert(argument_is(
                        low,
                        routine,
                        from + shift,
                        node,
                        params,
                        range,
                        scope,
                        first,
                        start,
                        v,
                        rounds,
                    ));
                    values
                } else {
                    Seq::empty()
                }
            },
        }
    }
}

/// The call of a routine by its number hands over what is on top.
proof fn lemma_routine_called(
    table: StdlibTable,
    index: int,
    arity: int,
    operands: FragmentView,
    range: TokenRange,
    s: Machine,
    w: Machine,
    values: Seq<int>,
    u: Machine,
    rounds: nat,
)
    requires
        run(operands.ops, s, rounds) == Flow::Next(u),
        u.stack == w.stack + values,
        values.len() == arity,
        arity <= u32::MAX,
    ensures
        ({
            let v = (u.world.routine)(index as u32, values);
            let g = routine_called(
                table,
                index,
                arity,
                Ok::<FragmentView, ErrorView>(operands),
                range,
            )->Ok_0;
            &&& run(g.ops, s, rounds) matches Flow::Next(t)
            &&& t.stack == w.stack.push(v)
        }),
{
    reveal(call_op_step);
    let g = routine_called(
        table,
        index,
        arity,
        Ok::<FragmentView, ErrorView>(operands),
        range,
    )->Ok_0;
    let call = g.ops.last();
    let last = seq![call];
    assert(g.ops =~= operands.ops + last);
    lemma_run_concat(operands.ops, last, 0, s, rounds);
    assert(u.topmost(arity) =~= values);
    assert(u.popped(arity).stack =~= w.stack);
    let t = u.popped(arity).pushed((u.world.routine)(index as u32, values));
    assert(last[0] == call);
    assert(step(call, u, rounds) == Flow::Next(t));
    assert(run_from(last, 1, t, rounds) == Flow::Next(t));
    assert(run_from(last, 0, u, rounds) == Flow::Next(t));
}

/// A call by the name of a bundled routine evaluates the arguments in their
/// order, and leaves what the routine of that name gives for their values.
pub proof fn law_routine_gets_its_arguments<L: CallLowering>(
    low: L,
    table: StdlibTable,
    resolved: NameTable<HostFnEntry>,
    name: Seq<char>,
    args: Seq<CallArg>,
    range: TokenRange,
    scope: Scope<'_>,
    at: SlotsView,
    s: Machine,
    rounds: nat,
) -> (values: Seq<int>)
    requires
        table.wf(),
        args.len() <= u32::MAX,
        steady_calls(low, rounds),
        tight(s),
        exists|i: int| routine_named(table, name, i),
        free_call(low, table, resolved, name, args, range, scope, at) is Ok,
    ensures
        ({
            let g = free_call(low, table, resolved, name, args, range, scope, at)->Ok_0;
            &&& finishing_calls(low, rounds) ==> run(g.ops, s, rounds) is Next
            &&& run(g.ops, s, rounds) matches Flow::Next(t) ==> {
                &&& values.len() == args.len()
                &&& t.stack == s.stack.push(t.operand(0))
                &&& answered(table, s.world, name, values, t.operand(0))
                &&& forall|i: int|
                    0 <= i < args.len() ==> argument_is(
                        low,
                        name,
                        i,
                        (#[trigger] args[i]).value,
                        table.entries@[table.index_of(name)->0].params@,
                        range,
                        scope,
                        s,
                        at,
                        values[i],
                        rounds,
                    )
            }
        }),
{
    let k = choose|i: int| routine_named(table, name, i);
    lemma_named_routine(table.entries@, name, 0, k);
    let entry = table.entries@[k];
    let g = free_call(low, table, resolved, name, args, range, scope, at)->Ok_0;
    let operands = routine_args(
        low,
        name,
        entry.name@,
        entry.params@,
        0,
        args,
        range,
        scope,
        Seq::empty(),
        at,
        0,
    )->Ok_0;
    let values = lemma_routine_args(
        low,
        name,
        entry.name@,
        entry.params@,
        0,
        args,
        range,
        scope,
        at,
        0,
        s,
        at,
        s,
        rounds,
    );
    let call = g.ops.last();
    assert(g.ops =~= operands.ops + seq![call]);
    lemma_run_concat(operands.ops, seq![call], 0, s, rounds);
    if let Flow::Next(u) = run(operands.ops, s, rounds) {
        lemma_routine_called(
            table,
            k,
            args.len() as int,
            operands,
            range,
            s,
            s,
            values,
            u,
            rounds,
        );
    }
    values
}

proof fn lemma_named_routine(entries: Seq<StdlibEntry>, name: Seq<char>, from: int, k: int)
    requires
        0 <= from <= k < entries.len(),
        entries[k].name@ == name,
        forall|j: int| 0 <= j < k ==> (#[trigger] entries[j]).name@ != name,
    ensures
        find_from(entries, name, from) == Some(k),
    decreases k - from,
{
    if from < k {
        assert(entries[from].name@ != name);
        lemma_named_routine(entries, name, from + 1, k);
    }
}

/// A method of a builtin type is the routine that the method stands for, called
/// on the receiver and then the arguments, in their order.
pub proof fn law_method_gets_receiver_and_arguments<L: CallLowering>(
    low: L,
    table: StdlibTable,
    f: FragmentView,
    ty: IrType,
    name: Seq<char>,
    args: Seq<CallArg>,
    range: TokenRange,
    scope: Scope<'_>,
    at: SlotsView,
    s: Machine,
    rounds: nat,
) -> (values: Seq<int>)
    requires
        table.wf(),
        args.len() < u32::MAX,
        steady_calls(low, rounds),
        steady(f, at, rounds),
        tight(s),
        routine_method(low, table, f, ty, name, args, range, scope) is Ok,
    ensures
        ({
            let g = routine_method(low, table, f, ty, name, args, range, scope)->Ok_0;
            let number = low.method_index(ty, name)->0;
            &&& low.method_index(ty, name) is Some
            &&& finishing_calls(low, rounds) && run(f.ops, s, rounds) is Next ==> run(
                g.ops,
                s,
                rounds,
            ) is Next
            &&& run(g.ops, s, rounds) matches Flow::Next(t) ==> {
                &&& run(f.ops, s, rounds) matches Flow::Next(u)
                &&& values.len() == args.len()
                &&& t.stack == s.stack.push(
                    (s.world.routine)(number, seq![u.operand(0)] + values),
                )
                &&& forall|i: int|
                    0 <= i < args.len() ==> argument_is(
                        low,
                        table.entries@[number as int].name@,
                        i + 1,
                        (#[trigger] args[i]).value,
                        table.entries@[number as int].params@,
                        range,
                        scope,
                        s,
                        at,
                        values[i],
                        rounds,
                    )
            }
        }),
{
    let number = low.method_index(ty, name)->0;
    let entry = table.entries@[number as int];
    let g = routine_method(low, table, f, ty, name, args, range, scope)->Ok_0;
    let all = routine_args(
        low,
        name,
        entry.name@,
        entry.params@,
        1,
        args,
        range,
        scope,
        f.ops,
        f.slots,
        0,
    )->Ok_0;
    lemma_args_behind(
        low,
        name,
        entry.name@,
        entry.params@,
        1,
        args,
        range,
        scope,
        f.ops,
        f.slots,
        0,
    );
    let own = routine_args(
        low,
        name,
        entry.name@,
        entry.params@,
        1,
        args,
        range,
        scope,
        Seq::empty(),
        f.slots,
        0,
    )->Ok_0;
    let call = g.ops.last();
    assert(g.ops =~= all.ops + seq![call]);
    lemma_run_concat(all.ops, seq![call], 0, s, rounds);
    lemma_run_concat(f.ops, own.ops, 0, s, rounds);
    if let Flow::Next(u) = run(f.ops, s, rounds) {
        lemma_operand(f, at, s, at, s, rounds);
        let values = lemma_routine_args(
            low,
            name,
            entry.name@,
            entry.params@,
            1,
            args,
            range,
            scope,
            f.slots,
            0,
            s,
            at,
            u,
            rounds,
        );
        if let Flow::Next(w) = run(own.ops, u, rounds) {
            let full = seq![u.operand(0)] + values;
            assert(w.stack =~= s.stack + full);
            lemma_routine_called(
                table,
                number as int,
                1 + args.len() as int,
                all,
                range,
                s,
                s,
                full,
                w,
                rounds,
            );
        }
        values
    } else {
        Seq::empty()
    }
}

} // verus!

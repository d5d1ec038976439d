//! What the calls that take a closure do to a list.

use vstd::prelude::*;

use crate::ast::{key_is, CallArg, Node, TokenKey, TokenRange};
use crate::chain::StageMethod;
use crate::comprehension::variant_map_routine;
use crate::fragment::{fired, Scope, SlotsView, SubLowering};
use crate::ir::{sop, IrType, SimpleOp};
use crate::list_calls::{
    closure_probe, filter_routine, fold_init, hof_call, hof_element, hof_method, hof_tail,
    list_filter, list_fold, list_len, list_map, list_sum_value, map_routines, map_tail,
    routine_call, FoldKind,
};
use crate::meaning::{lemma_run_concat, reads, record_op_step, run, Flow, Machine, World};
use crate::meaning_args::{lemma_operand, value_is};
use crate::meaning_calls::{
    accepted, answered, filters, finishing_operands, law_call_reaches_the_routine, lemma_answer,
    lists_work, mapped, maps, steady_operands, Elements,
};
use crate::meaning_records::lemma_single;
use crate::meaning_stores::{evaluates, steady, tight, undisturbed};
use crate::stdlib::StdlibTable;

verus! {

/// The word for an element type in the name of a list routine.
pub open spec fn word_for(elem: IrType) -> Seq<char> {
    match elem {
        IrType::I64 => "int"@,
        IrType::F64 => "float"@,
        _ => "string"@,
    }
}

/// The name of the routine that turns a list of one element type into a list of
/// another: it says both types, unless they are the same.
pub open spec fn map_name(elem: IrType, ret: IrType) -> Seq<char> {
    "list_"@ + word_for(elem) + (if elem == ret {
        "_map"@
    } else {
        "_map_to_"@ + word_for(ret)
    })
}

/// A list is mapped by the routine that is named for the element types of the
/// list and of the result, and filtered and folded by the one that is named for
/// its element type.
pub proof fn law_list_routines_are_named_for_their_types(elem: IrType, k: int)
    ensures
        0 <= k < map_routines(elem).len() ==> {
            let (ret, name) = map_routines(elem)[k];
            &&& name == map_name(elem, ret)
            &&& ret == IrType::I64 || ret == IrType::F64 || ret == IrType::String
        },
        filter_routine(elem) matches Some(name) ==> name == "list_"@ + word_for(elem) + "_filter"@,
        variant_map_routine(Some(IrType::ListInt)) == Some(
            "list_"@ + word_for(IrType::I64) + "_map_to_variant_list"@,
        ),
        variant_map_routine(Some(IrType::ListFloat)) == Some(
            "list_"@ + word_for(IrType::F64) + "_map_to_variant_list"@,
        ),
        variant_map_routine(Some(IrType::ListString)) == Some(
            "list_"@ + word_for(IrType::String) + "_map_to_variant_list"@,
        ),
        FoldKind::Int.routine() == "list_"@ + word_for(IrType::I64) + "_fold"@,
        FoldKind::Float.routine() == "list_"@ + word_for(IrType::F64) + "_fold"@,
{
    reveal_strlit("list_");
    reveal_strlit("int");
    reveal_strlit("float");
    reveal_strlit("string");
    reveal_strlit("_map");
    reveal_strlit("_map_to_");
    reveal_strlit("_filter");
    reveal_strlit("_fold");
    reveal_strlit("list_int_filter");
    reveal_strlit("list_float_filter");
    reveal_strlit("list_int_fold");
    reveal_strlit("list_float_fold");
    reveal_strlit("_map_to_variant_list");
    reveal_strlit("list_int_map_to_variant_list");
    reveal_strlit("list_float_map_to_variant_list");
    reveal_strlit("list_string_map_to_variant_list");
    assert("list_int_map_to_variant_list"@ =~= "list_"@ + "int"@ + "_map_to_variant_list"@);
    assert("list_float_map_to_variant_list"@ =~= "list_"@ + "float"@ + "_map_to_variant_list"@);
    assert("list_string_map_to_variant_list"@ =~= "list_"@ + "string"@ + "_map_to_variant_list"@);
    reveal_strlit("list_int_map");
    reveal_strlit("list_int_map_to_float");
    reveal_strlit("list_int_map_to_string");
    reveal_strlit("list_float_map");
    reveal_strlit("list_float_map_to_int");
    reveal_strlit("list_float_map_to_string");
    reveal_strlit("list_string_map");
    assert("list_int_filter"@ =~= "list_"@ + "int"@ + "_filter"@);
    assert("list_float_filter"@ =~= "list_"@ + "float"@ + "_filter"@);
    assert("list_int_fold"@ =~= "list_"@ + "int"@ + "_fold"@);
    assert("list_float_fold"@ =~= "list_"@ + "float"@ + "_fold"@);
    assert("list_int_map"@ =~= "list_"@ + "int"@ + "_map"@);
    assert("list_int_map_to_float"@ =~= "list_"@ + "int"@ + ("_map_to_"@ + "float"@));
    assert("list_int_map_to_string"@ =~= "list_"@ + "int"@ + ("_map_to_"@ + "string"@));
    assert("list_float_map"@ =~= "list_"@ + "float"@ + "_map"@);
    assert("list_float_map_to_int"@ =~= "list_"@ + "float"@ + ("_map_to_"@ + "int"@));
    assert("list_float_map_to_string"@ =~= "list_"@ + "float"@ + ("_map_to_"@ + "string"@));
    assert("list_string_map"@ =~= "list_"@ + "string"@ + "_map"@);
}

/// The value of a closure expression.
pub open spec fn closure_is<L: SubLowering>(
    low: L,
    node: Node,
    scope: Scope<'_>,
    s: Machine,
    at: SlotsView,
    c: int,
    rounds: nat,
) -> bool {
    exists|params: Seq<IrType>, ret: IrType, slots: SlotsView, u: Machine, t: Machine|
        #![trigger evaluates(
            low.closure_lowered(node, params, ret, scope, slots)->Ok_0.ops,
            s,
            at,
            s.free,
            s.free,
            u,
            t,
            c,
            rounds,
        )]
        low.closure_lowered(node, params, ret, scope, slots) is Ok && evaluates(
            low.closure_lowered(node, params, ret, scope, slots)->Ok_0.ops,
            s,
            at,
            s.free,
            s.free,
            u,
            t,
            c,
            rounds,
        )
}

/// What a call with a closure makes of a list.
pub open spec fn passed(
    kind: StageMethod,
    world: World,
    elements: Elements,
    xs: int,
    c: int,
    v: int,
) -> bool {
    match kind {
        StageMethod::Transform => elements(v) == mapped(world, elements(xs), c),
        StageMethod::Retain => elements(v) == accepted(world, elements(xs), c),
    }
}

/// A closure behind a list, and the routine that takes the two.
proof fn lemma_closure_pass<L: SubLowering>(
    low: L,
    table: StdlibTable,
    name: Seq<char>,
    closure: Node,
    params: Seq<IrType>,
    ret: IrType,
    range: TokenRange,
    scope: Scope<'_>,
    at: SlotsView,
    first: Machine,
    start: SlotsView,
    u: Machine,
    elements: Elements,
    rounds: nat,
) -> (c: int)
    requires
        table.wf(),
        steady_operands(low, rounds),
        lists_work(table, first.world, elements),
        tight(u),
        undisturbed(first, u, start, first.free, first.free),
        start.lets <= at.lets,
        start.records <= at.records,
        u.stack.len() > 0,
        low.closure_lowered(closure, params, ret, scope, at) matches Ok(f) && routine_call(
            table,
            name,
            2,
            f.ops,
            range,
            f.slots,
        ) is Ok,
    ensures
        ({
            let f = low.closure_lowered(closure, params, ret, scope, at)->Ok_0;
            let g = routine_call(table, name, 2, f.ops, range, f.slots)->Ok_0;
            &&& finishing_operands(low, rounds) ==> run(g.ops, u, rounds) is Next
            &&& run(g.ops, u, rounds) matches Flow::Next(t) ==> {
                &&& closure_is(low, closure, scope, first, start, c, rounds)
                &&& t.stack == u.stack.drop_last().push(t.operand(0))
                &&& maps(name) ==> passed(
                    StageMethod::Transform,
                    first.world,
                    elements,
                    u.operand(0),
                    c,
                    t.operand(0),
                )
                &&& filters(name) ==> passed(
                    StageMethod::Retain,
                    first.world,
                    elements,
                    u.operand(0),
                    c,
                    t.operand(0),
                )
            }
        }),
{
    let f = low.closure_lowered(closure, params, ret, scope, at)->Ok_0;
    let g = routine_call(table, name, 2, f.ops, range, f.slots)->Ok_0;
    let xs = u.operand(0);
    assert(steady(f, at, rounds));
    let call = g.ops.last();
    assert(g.ops =~= f.ops + seq![call]);
    lemma_run_concat(f.ops, seq![call], 0, u, rounds);
    let c = run(f.ops, u, rounds)->Next_0.operand(0);
    lemma_operand(f, at, first, start, u, rounds);
    if finishing_operands(low, rounds) {
        assert(run(
            low.closure_lowered(closure, params, ret, scope, at)->Ok_0.ops,
            u,
            rounds,
        ) is Next);
    }
    if let Flow::Next(w) = run(f.ops, u, rounds) {
        law_call_reaches_the_routine(table, name, 2, f.ops, range, f.slots, u, w, rounds);
        assert(w.topmost(2) =~= seq![xs, c]);
        let t = run(g.ops, u, rounds)->Next_0;
        assert(w.popped(2).stack =~= u.stack.drop_last());
        assert(closure_is(low, closure, scope, first, start, c, rounds));
        lemma_answer(table, first.world, elements, name, xs, c, t.operand(0));
    }
    c
}

/// The map that is taken is one of those for the element type.
proof fn lemma_map_tail<L: SubLowering>(
    low: L,
    table: StdlibTable,
    elem: IrType,
    from: int,
    closure: Node,
    range: TokenRange,
    scope: Scope<'_>,
    at: SlotsView,
) -> (k: int)
    requires
        0 <= from,
        map_tail(low, table, elem, from, closure, range, scope, at) matches Ok(Some(_)),
    ensures
        0 <= k < map_routines(elem).len(),
        maps(map_routines(elem)[k].1),
        low.closure_lowered(
            closure,
            seq![elem],
            map_routines(elem)[k].0,
            scope,
            at,
        ) matches Ok(f) && map_tail(low, table, elem, from, closure, range, scope, at) == fired(
            routine_call(table, map_routines(elem)[k].1, 2, f.ops, range, f.slots),
        ),
    decreases map_routines(elem).len() - from,
{
    let (ret, _) = map_routines(elem)[from];
    match closure_probe(low, closure, seq![elem], ret, scope, at) {
        Ok(None) => lemma_map_tail(low, table, elem, from + 1, closure, range, scope, at),
        _ => from,
    }
}

proof fn lemma_hof_tail<L: SubLowering>(
    low: L,
    table: StdlibTable,
    kind: StageMethod,
    elem: IrType,
    closure: Node,
    range: TokenRange,
    scope: Scope<'_>,
    at: SlotsView,
    first: Machine,
    start: SlotsView,
    u: Machine,
    elements: Elements,
    rounds: nat,
) -> (c: int)
    requires
        table.wf(),
        steady_operands(low, rounds),
        lists_work(table, first.world, elements),
        tight(u),
        undisturbed(first, u, start, first.free, first.free),
        start.lets <= at.lets,
        start.records <= at.records,
        u.stack.len() > 0,
        hof_tail(low, table, kind, elem, closure, range, scope, at) matches Ok(Some(_)),
    ensures
        ({
            let g = hof_tail(low, table, kind, elem, closure, range, scope, at)->Ok_0->0;
            &&& finishing_operands(low, rounds) ==> run(g.ops, u, rounds) is Next
            &&& run(g.ops, u, rounds) matches Flow::Next(t) ==> {
                &&& closure_is(low, closure, scope, first, start, c, rounds)
                &&& t.stack == u.stack.drop_last().push(t.operand(0))
                &&& passed(kind, first.world, elements, u.operand(0), c, t.operand(0))
            }
        }),
{
    match kind {
        StageMethod::Transform => {
            let k = lemma_map_tail(low, table, elem, 0, closure, range, scope, at);
            let (ret, name) = map_routines(elem)[k];
            lemma_closure_pass(
                low,
                table,
                name,
                closure,
                seq![elem],
                ret,
                range,
                scope,
                at,
                first,
                start,
                u,
                elements,
                rounds,
            )
        },
        StageMethod::Retain => {
            let name = filter_routine(elem)->0;
            let (params, ret) = table.closure_sig(name, 1)->0;
            lemma_closure_pass(
                low,
                table,
                name,
                closure,
                params,
                ret,
                range,
                scope,
                at,
                first,
                start,
                u,
                elements,
                rounds,
            )
        },
    }
}

/// The method `map` of a list leaves the list of what the closure makes of each
/// element, and the method `filter` the list of the elements for which the closure
/// gives true; both in the order of the list that is on top.
pub proof fn law_method_maps_or_filters<L: SubLowering>(
    low: L,
    table: StdlibTable,
    kind: StageMethod,
    receiver: IrType,
    closure: Node,
    range: TokenRange,
    scope: Scope<'_>,
    at: SlotsView,
    s: Machine,
    elements: Elements,
    rounds: nat,
) -> (c: int)
    requires
        table.wf(),
        steady_operands(low, rounds),
        lists_work(table, s.world, elements),
        tight(s),
        s.stack.len() > 0,
        hof_method(low, table, kind, receiver, closure, range, scope, at) matches Ok(Some(_)),
    ensures
        ({
            let g = hof_method(low, table, kind, receiver, closure, range, scope, at)->Ok_0->0;
            &&& finishing_operands(low, rounds) ==> run(g.ops, s, rounds) is Next
            &&& run(g.ops, s, rounds) matches Flow::Next(t) ==> {
                &&& closure_is(low, closure, scope, s, at, c, rounds)
                &&& t.stack == s.stack.drop_last().push(t.operand(0))
                &&& passed(kind, s.world, elements, s.operand(0), c, t.operand(0))
            }
        }),
{
    lemma_hof_tail(
        low,
        table,
        kind,
        hof_element(receiver)->0,
        closure,
        range,
        scope,
        at,
        s,
        at,
        s,
        elements,
        rounds,
    )
}

/// A call with a list and a closure leaves the list of what the closure makes of
/// each element, or of the elements for which it gives true.
proof fn lemma_hof_call<L: SubLowering>(
    low: L,
    table: StdlibTable,
    kind: StageMethod,
    args: Seq<CallArg>,
    range: TokenRange,
    scope: Scope<'_>,
    at: SlotsView,
    s: Machine,
    elements: Elements,
    rounds: nat,
) -> (c: int)
    requires
        table.wf(),
        steady_operands(low, rounds),
        lists_work(table, s.world, elements),
        tight(s),
        hof_call(low, table, kind, args, range, scope, at) matches Ok(Some(_)),
    ensures
        ({
            let g = hof_call(low, table, kind, args, range, scope, at)->Ok_0->0;
            let src = low.lowered(args[0].value, scope, at)->Ok_0;
            &&& finishing_operands(low, rounds) ==> run(g.ops, s, rounds) is Next
            &&& run(g.ops, s, rounds) matches Flow::Next(t) ==> {
                &&& run(src.ops, s, rounds) matches Flow::Next(u)
                &&& closure_is(low, args[1].value, scope, s, at, c, rounds)
                &&& t.stack == s.stack.push(t.operand(0))
                &&& passed(kind, s.world, elements, u.operand(0), c, t.operand(0))
            }
        }),
{
    let g = hof_call(low, table, kind, args, range, scope, at)->Ok_0->0;
    let src = low.lowered(args[0].value, scope, at)->Ok_0;
    let elem = hof_element(src.ty->0)->0;
    let tail = hof_tail(
        low,
        table,
        kind,
        elem,
        args[1].value,
        range,
        scope,
        src.slots,
    )->Ok_0->0;
    assert(steady(src, at, rounds));
    assert(g.ops == src.ops + tail.ops);
    lemma_run_concat(src.ops, tail.ops, 0, s, rounds);
    if finishing_operands(low, rounds) {
        assert(run(low.lowered(args[0].value, scope, at)->Ok_0.ops, s, rounds) is Next);
    }
    if let Flow::Next(u) = run(src.ops, s, rounds) {
        lemma_operand(src, at, s, at, s, rounds);
        assert(u.stack.drop_last() =~= s.stack);
        lemma_hof_tail(
            low,
            table,
            kind,
            elem,
            args[1].value,
            range,
            scope,
            src.slots,
            s,
            at,
            u,
            elements,
            rounds,
        )
    } else {
        0
    }
}

/// The call of `_list_map` leaves the list of what the closure makes of each
/// element of the list.
pub proof fn law_list_map_maps<L: SubLowering>(
    low: L,
    table: StdlibTable,
    path: Seq<TokenKey>,
    args: Seq<CallArg>,
    range: TokenRange,
    scope: Scope<'_>,
    at: SlotsView,
    s: Machine,
    elements: Elements,
    rounds: nat,
) -> (c: int)
    requires
        table.wf(),
        steady_operands(low, rounds),
        lists_work(table, s.world, elements),
        tight(s),
        list_map(low, table, path, args, range, scope, at) matches Ok(Some(_)),
    ensures
        ({
            let g = list_map(low, table, path, args, range, scope, at)->Ok_0->0;
            let src = low.lowered(args[0].value, scope, at)->Ok_0;
            &&& key_is(path[0], "_list_map"@)
            &&& finishing_operands(low, rounds) ==> run(g.ops, s, rounds) is Next
            &&& run(g.ops, s, rounds) matches Flow::Next(t) ==> {
                &&& run(src.ops, s, rounds) matches Flow::Next(u)
                &&& closure_is(low, args[1].value, scope, s, at, c, rounds)
                &&& t.stack == s.stack.push(t.operand(0))
                &&& elements(t.operand(0)) == mapped(s.world, elements(u.operand(0)), c)
            }
        }),
{
    lemma_hof_call(
        low,
        table,
        StageMethod::Transform,
        args,
        range,
        scope,
        at,
        s,
        elements,
        rounds,
    )
}

/// The call of `_list_filter` leaves the list of those elements of the list for
/// which the closure gives true.
pub proof fn law_list_filter_filters<L: SubLowering>(
    low: L,
    table: StdlibTable,
    path: Seq<TokenKey>,
    args: Seq<CallArg>,
    range: TokenRange,
    scope: Scope<'_>,
    at: SlotsView,
    s: Machine,
    elements: Elements,
    rounds: nat,
) -> (c: int)
    requires
        table.wf(),
        steady_operands(low, rounds),
        lists_work(table, s.world, elements),
        tight(s),
        list_filter(low, table, path, args, range, scope, at) matches Ok(Some(_)),
    ensures
        ({
            let g = list_filter(low, table, path, args, range, scope, at)->Ok_0->0;
            let src = low.lowered(args[0].value, scope, at)->Ok_0;
            &&& key_is(path[0], "_list_filter"@)
            &&& finishing_operands(low, rounds) ==> run(g.ops, s, rounds) is Next
            &&& run(g.ops, s, rounds) matches Flow::Next(t) ==> {
                &&& run(src.ops, s, rounds) matches Flow::Next(u)
                &&& closure_is(low, args[1].value, scope, s, at, c, rounds)
                &&& t.stack == s.stack.push(t.operand(0))
                &&& elements(t.operand(0)) == accepted(s.world, elements(u.operand(0)), c)
            }
        }),
{
    let g = list_filter(low, table, path, args, range, scope, at)->Ok_0->0;
    let src = low.lowered(args[0].value, scope, at)->Ok_0;
    if src.ty == Some(IrType::ListFloat) {
        lemma_hof_call(
            low,
            table,
            StageMethod::Retain,
            args,
            range,
            scope,
            at,
            s,
            elements,
            rounds,
        )
    } else {
        let name = "list_int_filter"@;
        let (params, ret) = table.closure_sig(name, 1)->0;
        let closure = args[1].value;
        let f = low.closure_lowered(closure, params, ret, scope, src.slots)->Ok_0;
        let pass = routine_call(table, name, 2, f.ops, range, f.slots)->Ok_0;
        assert(g.ops =~= src.ops + pass.ops);
        assert(steady(src, at, rounds));
        lemma_run_concat(src.ops, pass.ops, 0, s, rounds);
        if finishing_operands(low, rounds) {
            assert(run(low.lowered(args[0].value, scope, at)->Ok_0.ops, s, rounds) is Next);
        }
        if let Flow::Next(u) = run(src.ops, s, rounds) {
            lemma_operand(src, at, s, at, s, rounds);
            assert(u.stack.drop_last() =~= s.stack);
            lemma_closure_pass(
                low,
                table,
                name,
                closure,
                params,
                ret,
                range,
                scope,
                src.slots,
                s,
                at,
                u,
                elements,
                rounds,
            )
        } else {
            0
        }
    }
}

/// The sum of a list value is what the summing routine gives for the list.
pub proof fn law_list_sum_sums<L: SubLowering>(
    low: L,
    table: StdlibTable,
    path: Seq<TokenKey>,
    args: Seq<CallArg>,
    range: TokenRange,
    scope: Scope<'_>,
    at: SlotsView,
    s: Machine,
    rounds: nat,
)
    requires
        table.wf(),
        steady_operands(low, rounds),
        tight(s),
        list_sum_value(low, table, path, args, range, scope, at) matches Ok(Some(_)),
    ensures
        ({
            let g = list_sum_value(low, table, path, args, range, scope, at)->Ok_0->0;
            let src = low.lowered(args[0].value, scope, at)->Ok_0;
            &&& src.ty == Some(IrType::ListInt)
            &&& finishing_operands(low, rounds) ==> run(g.ops, s, rounds) is Next
            &&& run(g.ops, s, rounds) matches Flow::Next(t) ==> {
                &&& run(src.ops, s, rounds) matches Flow::Next(u)
                &&& t.stack == s.stack.push(t.operand(0))
                &&& answered(
                    table,
                    s.world,
                    "list_int_sum"@,
                    seq![u.operand(0)],
                    t.operand(0),
                )
            }
        }),
{
    let g = list_sum_value(low, table, path, args, range, scope, at)->Ok_0->0;
    let src = low.lowered(args[0].value, scope, at)->Ok_0;
    assert(steady(src, at, rounds));
    let call = g.ops.last();
    assert(g.ops =~= src.ops + seq![call]);
    lemma_run_concat(src.ops, seq![call], 0, s, rounds);
    if finishing_operands(low, rounds) {
        assert(run(low.lowered(args[0].value, scope, at)->Ok_0.ops, s, rounds) is Next);
    }
    if let Flow::Next(u) = run(src.ops, s, rounds) {
        lemma_operand(src, at, s, at, s, rounds);
        law_call_reaches_the_routine(
            table,
            "list_int_sum"@,
            1,
            src.ops,
            range,
            src.slots,
            s,
            u,
            rounds,
        );
        assert(u.topmost(1) =~= seq![u.operand(0)]);
        assert(u.popped(1).stack =~= s.stack);
    }
}

/// The length of a list value is the number that stands at its head.
pub proof fn law_list_len_reads_the_count<L: SubLowering>(
    low: L,
    path: Seq<TokenKey>,
    args: Seq<CallArg>,
    range: TokenRange,
    scope: Scope<'_>,
    at: SlotsView,
    s: Machine,
    n: int,
    rounds: nat,
)
    requires
        steady_operands(low, rounds),
        tight(s),
        list_len(low, path, args, range, scope, at) matches Ok(Some(_)),
        ({
            let src = low.lowered(args[0].value, scope, at)->Ok_0;
            run(src.ops, s, rounds) matches Flow::Next(u) ==> reads(u.mem, u.operand(0), 4, n)
        }),
    ensures
        ({
            let g = list_len(low, path, args, range, scope, at)->Ok_0->0;
            &&& finishing_operands(low, rounds) ==> run(g.ops, s, rounds) is Next
            &&& run(g.ops, s, rounds) matches Flow::Next(t) ==> t.stack == s.stack.push(n)
        }),
{
    reveal(record_op_step);
    let src = low.lowered(args[0].value, scope, at)->Ok_0;
    assert(steady(src, at, rounds));
    let last = seq![sop(SimpleOp::ReadStringLen, range)];
    lemma_run_concat(src.ops, last, 0, s, rounds);
    assert(src.ops.push(last[0]) =~= src.ops + last);
    if finishing_operands(low, rounds) {
        assert(run(low.lowered(args[0].value, scope, at)->Ok_0.ops, s, rounds) is Next);
    }
    if let Flow::Next(u) = run(src.ops, s, rounds) {
        lemma_operand(src, at, s, at, s, rounds);
        let t = u.popped(1).pushed(n);
        assert(t.stack =~= s.stack.push(n));
        lemma_single(SimpleOp::ReadStringLen, range, u, t, rounds);
    }
}

/// A fold of a list value hands the list, the initial value and the closure, in
/// this order, to the routine that folds lists of the element type. An integer
/// that starts a fold of floats is widened.
pub proof fn law_list_fold_folds<L: SubLowering>(
    low: L,
    table: StdlibTable,
    args: Seq<CallArg>,
    range: TokenRange,
    scope: Scope<'_>,
    at: SlotsView,
    s: Machine,
    rounds: nat,
) -> (found: (int, int))
    requires
        table.wf(),
        steady_operands(low, rounds),
        tight(s),
        list_fold(low, table, args, range, scope, at) matches Ok(Some(_)),
    ensures
        ({
            let g = list_fold(low, table, args, range, scope, at)->Ok_0->0;
            let src = low.lowered(args[0].value, scope, at)->Ok_0;
            let floats = src.ty == Some(IrType::ListFloat);
            let (w, c) = found;
            let ints = low.lowered(args[1].value, scope, src.slots)->Ok_0.ty == Some(IrType::I64);
            let init = if floats && ints {
                (s.world.widened)(w)
            } else {
                w
            };
            &&& floats || src.ty == Some(IrType::ListInt)
            &&& finishing_operands(low, rounds) ==> run(g.ops, s, rounds) is Next
            &&& run(g.ops, s, rounds) matches Flow::Next(t) ==> {
                &&& run(src.ops, s, rounds) matches Flow::Next(u)
                &&& t.stack == s.stack.push(t.operand(0))
                &&& value_is(low, args[1].value, scope, s, at, w, rounds)
                &&& closure_is(low, args[2].value, scope, s, at, c, rounds)
                &&& answered(
                    table,
                    s.world,
                    if floats {
                        "list_float_fold"@
                    } else {
                        "list_int_fold"@
                    },
                    seq![u.operand(0), init, c],
                    t.operand(0),
                )
            }
        }),
{
    reveal(record_op_step);
    let g = list_fold(low, table, args, range, scope, at)->Ok_0->0;
    let src = low.lowered(args[0].value, scope, at)->Ok_0;
    let kind = if src.ty == Some(IrType::ListFloat) {
        FoldKind::Float
    } else {
        FoldKind::Int
    };
    let name = kind.routine();
    let plain = low.lowered(args[1].value, scope, src.slots)->Ok_0;
    let init = fold_init(low, kind, args[1].value, scope, src.slots)->Ok_0;
    let (params, ret) = table.closure_sig(name, 2)->0;
    let f = low.closure_lowered(args[2].value, params, ret, scope, init.slots)->Ok_0;
    let code = src.ops + init.ops + f.ops;
    let call = g.ops.last();
    assert(g.ops =~= code + seq![call]);
    assert(steady(src, at, rounds));
    assert(steady(plain, src.slots, rounds));
    assert(steady(f, init.slots, rounds));
    lemma_run_concat(code, seq![call], 0, s, rounds);
    lemma_run_concat(src.ops + init.ops, f.ops, 0, s, rounds);
    lemma_run_concat(src.ops, init.ops, 0, s, rounds);
    let finishing = finishing_operands(low, rounds);
    assert(finishing ==> run(low.lowered(args[0].value, scope, at)->Ok_0.ops, s, rounds) is Next);
    if let Flow::Next(u) = run(src.ops, s, rounds) {
        lemma_operand(src, at, s, at, s, rounds);
        lemma_operand(plain, src.slots, s, at, u, rounds);
        let widens = init.ops != plain.ops;
        let step = SimpleOp::ConvertI64ToF64;
        let last = seq![sop(step, args[1].value.range)];
        if widens {
            assert(init.ops =~= plain.ops + last);
            lemma_run_concat(plain.ops, last, 0, u, rounds);
        }
        assert(finishing ==> run(
            low.lowered(args[1].value, scope, src.slots)->Ok_0.ops,
            u,
            rounds,
        ) is Next);
        if let Flow::Next(w) = run(plain.ops, u, rounds) {
            let v = w.operand(0);
            let wide = w.popped(1).pushed((w.world.widened)(v));
            if widens {
                lemma_single(step, args[1].value.range, w, wide, rounds);
            }
            let x = if widens {
                wide
            } else {
                w
            };
            assert(run(init.ops, u, rounds) == Flow::Next(x));
            assert(x.stack =~= u.stack.push(x.operand(0)));
            assert(tight(x));
            assert(undisturbed(s, x, at, s.free, s.free));
            lemma_operand(f, init.slots, s, at, x, rounds);
            assert(finishing ==> run(
                low.closure_lowered(args[2].value, params, ret, scope, init.slots)->Ok_0.ops,
                x,
                rounds,
            ) is Next);
            if let Flow::Next(y) = run(f.ops, x, rounds) {
                let c = y.operand(0);
                law_call_reaches_the_routine(
                    table,
                    name,
                    3,
                    code,
                    range,
                    f.slots,
                    s,
                    y,
                    rounds,
                );
                assert(y.topmost(3) =~= seq![u.operand(0), x.operand(0), c]);
                assert(y.popped(3).stack =~= s.stack);
                assert(closure_is(low, args[2].value, scope, s, at, c, rounds));
                assert(value_is(low, args[1].value, scope, s, at, v, rounds));
                assert(widens <==> (kind == FoldKind::Float && plain.ty == Some(IrType::I64))) by {
                    assert(plain.ops.push(last[0]).len() == plain.ops.len() + 1);
                }
                (v, c)
            } else {
                (0, 0)
            }
        } else {
            (0, 0)
        }
    } else {
        (0, 0)
    }
}

} // verus!

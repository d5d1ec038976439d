//! What calls compute: which routine is called, and on which operands.

use vstd::prelude::*;

use crate::ast::{Node, TokenRange};
use crate::comprehension::{
    comprehension, filtered_source, map_pass, pass_tail, variant_comprehension,
    variant_map_routine,
};
use crate::error::ErrorView;
use crate::fragment::{FragmentView, Scope, SlotsView, SubLowering};
use crate::ir::{IrType, TaggedOpView};
use crate::list_calls::{call_op, filter_routine, hof_element, map_routines, routine_call};
use crate::meaning::{call_op_step, lemma_run_concat, run, run_from, step, Flow, Machine, World};
use crate::meaning_stores::{evaluates, lemma_undisturbed_chain, steady, tight, undisturbed};
use crate::stdlib::{find_from, StdlibEntry, StdlibTable};
use crate::types::TypeRepr;

verus! {

// ---------------------------------------------------------------------------
// Routines.
// ---------------------------------------------------------------------------

/// The routine is the first of the name; its position is its number.
pub open spec fn routine_named(table: StdlibTable, name: Seq<char>, i: int) -> bool {
    &&& 0 <= i < table.entries@.len()
    &&& i <= u32::MAX
    &&& table.entries@[i].name@ == name
    &&& forall|j: int| 0 <= j < i ==> (#[trigger] table.entries@[j]).name@ != name
}

/// What the routine of the name gives for the operands.
pub open spec fn answered(
    table: StdlibTable,
    world: World,
    name: Seq<char>,
    args: Seq<int>,
    v: int,
) -> bool {
    exists|i: int| #[trigger]
        routine_named(table, name, i) && v == (world.routine)(i as u32, args)
}

proof fn lemma_found_routine(entries: Seq<StdlibEntry>, name: Seq<char>, from: int, i: int)
    requires
        find_from(entries, name, from) == Some(i),
        0 <= from,
        forall|j: int| 0 <= j < from ==> (#[trigger] entries[j]).name@ != name,
    ensures
        0 <= i < entries.len(),
        entries[i].name@ == name,
        forall|j: int| 0 <= j < i ==> (#[trigger] entries[j]).name@ != name,
    decreases entries.len() - from,
{
    if from < entries.len() && entries[from].name@ != name {
        lemma_found_routine(entries, name, from + 1, i);
    }
}

/// The call of a routine hands it the operands that the code before it leaves,
/// and leaves what the routine of the name gives for them.
pub proof fn law_call_reaches_the_routine(
    table: StdlibTable,
    name: Seq<char>,
    arity: usize,
    operands: Seq<TaggedOpView>,
    range: TokenRange,
    at: SlotsView,
    s: Machine,
    u: Machine,
    rounds: nat,
)
    requires
        table.wf(),
        arity <= u32::MAX,
        routine_call(table, name, arity, operands, range, at) is Ok,
        run(operands, s, rounds) == Flow::Next(u),
        u.stack.len() >= arity,
    ensures
        ({
            let g = routine_call(table, name, arity, operands, range, at)->Ok_0;
            &&& run(g.ops, s, rounds) matches Flow::Next(t)
            &&& t == u.popped(arity as int).pushed(t.operand(0))
            &&& answered(table, u.world, name, u.topmost(arity as int), t.operand(0))
        }),
{
    reveal(call_op_step);
    let i = table.index_of(name)->0;
    lemma_found_routine(table.entries@, name, 0, i);
    let call = call_op(table, i, arity, range);
    let g = routine_call(table, name, arity, operands, range, at)->Ok_0;
    let last = seq![call];
    assert(g.ops =~= operands + last);
    lemma_run_concat(operands, last, 0, s, rounds);
    let v = (u.world.routine)(i as u32, u.topmost(arity as int));
    let t = u.popped(arity as int).pushed(v);
    assert(last[0] == call);
    assert(step(call, u, rounds) == Flow::Next(t));
    assert(run_from(last, 0, u, rounds) == run_from(last, 1, t, rounds));
    assert(run_from(last, 1, t, rounds) == Flow::Next(t));
    assert(routine_named(table, name, i));
}

// ---------------------------------------------------------------------------
// Lists.
// ---------------------------------------------------------------------------

/// The elements of a list by its handle.
pub type Elements = spec_fn(int) -> Seq<int>;

/// The name is that of a routine that maps a closure over a list.
pub open spec fn maps(name: Seq<char>) -> bool {
    ||| name == "list_int_map"@
    ||| name == "list_int_map_to_float"@
    ||| name == "list_int_map_to_string"@
    ||| name == "list_float_map"@
    ||| name == "list_float_map_to_int"@
    ||| name == "list_float_map_to_string"@
    ||| name == "list_string_map"@
    ||| name == "list_int_map_to_variant_list"@
    ||| name == "list_float_map_to_variant_list"@
    ||| name == "list_string_map_to_variant_list"@
}

/// The name is that of a routine that keeps the elements that a closure accepts.
pub open spec fn filters(name: Seq<char>) -> bool {
    name == "list_int_filter"@ || name == "list_float_filter"@
}

/// What a closure makes of each element.
pub open spec fn mapped(world: World, xs: Seq<int>, c: int) -> Seq<int> {
    xs.map_values(|x: int| (world.closure)(seq![c, x]))
}

/// The elements that a closure accepts.
pub open spec fn accepted(world: World, xs: Seq<int>, c: int) -> Seq<int> {
    xs.filter(|x: int| (world.closure)(seq![c, x]) != 0)
}

/// What the routine of a number gives for a list and a closure.
pub open spec fn given(world: World, i: int, xs: int, c: int) -> int {
    (world.routine)(i as u32, seq![xs, c])
}

/// The bundled routines over lists do what their names say.
pub open spec fn lists_work(table: StdlibTable, world: World, elements: Elements) -> bool {
    forall|i: int, xs: int, c: int|
        0 <= i < table.entries@.len() && i <= u32::MAX ==> {
            let v = #[trigger] given(world, i, xs, c);
            &&& maps(table.entries@[i].name@) ==> elements(v) == mapped(world, elements(xs), c)
            &&& filters(table.entries@[i].name@) ==> elements(v) == accepted(
                world,
                elements(xs),
                c,
            )
        }
}

/// Values, and closures of one parameter, are steady where they leave something.
pub open spec fn steady_operands<L: SubLowering>(low: L, rounds: nat) -> bool {
    &&& forall|node: Node, scope: Scope<'_>, at: SlotsView|
        (#[trigger] low.lowered(node, scope, at)) matches Ok(f) ==> (f.ty is Some ==> steady(
            f,
            at,
            rounds,
        ))
    &&& forall|
        name: Seq<char>,
        body: Node,
        params: Seq<IrType>,
        ret: IrType,
        expected: Option<TypeRepr>,
        scope: Scope<'_>,
        at: SlotsView,
    |
        (#[trigger] low.unary_lowered(name, body, params, ret, expected, scope, at)) matches Ok(f)
            ==> steady(f, at, rounds)
    &&& forall|
        node: Node,
        params: Seq<IrType>,
        ret: IrType,
        scope: Scope<'_>,
        at: SlotsView,
    |
        (#[trigger] low.closure_lowered(node, params, ret, scope, at)) matches Ok(f) ==> steady(
            f,
            at,
            rounds,
        )
}

/// The code of values and closures comes to its end.
pub open spec fn finishing_operands<L: SubLowering>(low: L, rounds: nat) -> bool {
    &&& forall|node: Node, scope: Scope<'_>, at: SlotsView, s: Machine|
        low.lowered(node, scope, at) is Ok && tight(s) ==> (#[trigger] run(
            low.lowered(node, scope, at)->Ok_0.ops,
            s,
            rounds,
        )) is Next
    &&& forall|
        name: Seq<char>,
        body: Node,
        params: Seq<IrType>,
        ret: IrType,
        expected: Option<TypeRepr>,
        scope: Scope<'_>,
        at: SlotsView,
        s: Machine,
    |
        low.unary_lowered(name, body, params, ret, expected, scope, at) is Ok && tight(s) ==> (
        #[trigger] run(
            low.unary_lowered(name, body, params, ret, expected, scope, at)->Ok_0.ops,
            s,
            rounds,
        )) is Next
    &&& forall|
        node: Node,
        params: Seq<IrType>,
        ret: IrType,
        scope: Scope<'_>,
        at: SlotsView,
        s: Machine,
    |
        low.closure_lowered(node, params, ret, scope, at) is Ok && tight(s) ==> (#[trigger] run(
            low.closure_lowered(node, params, ret, scope, at)->Ok_0.ops,
            s,
            rounds,
        )) is Next
}

/// The closure `(id) => body`, made where the machine knows all that it knew at
/// first.
pub open spec fn is_closure<L: SubLowering>(
    low: L,
    id: Seq<char>,
    body: Node,
    scope: Scope<'_>,
    s: Machine,
    at: SlotsView,
    c: int,
    rounds: nat,
) -> bool {
    exists|
        params: Seq<IrType>,
        ret: IrType,
        expected: Option<TypeRepr>,
        slots: SlotsView,
        u: Machine,
        t: Machine,
    |
        #![trigger evaluates(
            low.unary_lowered(id, body, params, ret, expected, scope, slots)->Ok_0.ops,
            s,
            at,
            s.free,
            s.free,
            u,
            t,
            c,
            rounds,
        )]
        low.unary_lowered(id, body, params, ret, expected, scope, slots) is Ok && evaluates(
            low.unary_lowered(id, body, params, ret, expected, scope, slots)->Ok_0.ops,
            s,
            at,
            s.free,
            s.free,
            u,
            t,
            c,
            rounds,
        )
}

/// What a pass over a list does: behind the list it makes the closure, and the
/// routine of the name turns the two into one value.
spec fn pass_done<L: SubLowering>(
    low: L,
    table: StdlibTable,
    routine: Seq<char>,
    id: Seq<char>,
    body: Node,
    scope: Scope<'_>,
    first: Machine,
    start: SlotsView,
    xs: int,
    u: Machine,
    t: Machine,
    c: int,
    rounds: nat,
) -> bool {
    &&& is_closure(low, id, body, scope, first, start, c, rounds)
    &&& answered(table, first.world, routine, seq![xs, c], t.operand(0))
    &&& t.stack == u.stack.drop_last().push(t.operand(0))
    &&& tight(t)
    &&& undisturbed(first, t, start, first.free, first.free)
}

proof fn lemma_pass<L: SubLowering>(
    low: L,
    table: StdlibTable,
    routine: Seq<char>,
    id: Seq<char>,
    body: Node,
    ret_ty: Option<IrType>,
    expected: Option<TypeRepr>,
    range: TokenRange,
    scope: Scope<'_>,
    first: Machine,
    start: SlotsView,
    at: SlotsView,
    u: Machine,
    xs: int,
    rounds: nat,
) -> (c: int)
    requires
        table.wf(),
        steady_operands(low, rounds),
        tight(u),
        undisturbed(first, u, start, first.free, first.free),
        start.lets <= at.lets,
        start.records <= at.records,
        u.stack.len() > 0,
        u.operand(0) == xs,
        pass_tail(low, table, routine, id, body, ret_ty, expected, range, scope, at) is Ok,
    ensures
        ({
            let g = pass_tail(
                low,
                table,
                routine,
                id,
                body,
                ret_ty,
                expected,
                range,
                scope,
                at,
            )->Ok_0;
            &&& at.lets <= g.slots.lets
            &&& at.records <= g.slots.records
            &&& finishing_operands(low, rounds) ==> run(g.ops, u, rounds) is Next
            &&& run(g.ops, u, rounds) matches Flow::Next(t) ==> pass_done(
                low,
                table,
                routine,
                id,
                body,
                scope,
                first,
                start,
                xs,
                u,
                t,
                c,
                rounds,
            )
        }),
{
    let (params, declared) = table.closure_sig(routine, 1)->0;
    let ret = match ret_ty {
        Some(t) => t,
        None => declared,
    };
    let f = low.unary_lowered(id, body, params, ret, expected, scope, at)->Ok_0;
    let g = pass_tail(
        low,
        table,
        routine,
        id,
        body,
        ret_ty,
        expected,
        range,
        scope,
        at,
    )->Ok_0;
    assert(steady(f, at, rounds));
    let call = g.ops.last();
    assert(g.ops =~= f.ops + seq![call]);
    lemma_run_concat(f.ops, seq![call], 0, u, rounds);
    let c = run(f.ops, u, rounds)->Next_0.operand(0);
    if finishing_operands(low, rounds) {
        assert(run(
            low.unary_lowered(id, body, params, ret, expected, scope, at)->Ok_0.ops,
            u,
            rounds,
        ) is Next);
    }
    if let Flow::Next(w) = run(f.ops, u, rounds) {
        lemma_undisturbed_chain(first, u, w, start, at, first.free, first.free);
        assert(evaluates(
            f.ops,
            first,
            start,
            first.free,
            first.free,
            u,
            w,
            c,
            rounds,
        ));
        law_call_reaches_the_routine(table, routine, 2, f.ops, range, f.slots, u, w, rounds);
        assert(w.topmost(2) =~= seq![xs, c]);
        let t = run(g.ops, u, rounds)->Next_0;
        assert(w.popped(2).stack =~= u.stack.drop_last());
        assert(is_closure(low, id, body, scope, first, start, c, rounds));
        assert(tight(t));
    }
    c
}

/// A list comprehension leaves a list: the elements of the source for which the
/// condition holds, all of them where there is none, in their order, and of each
/// what the element expression makes of it.
pub open spec fn comprehends<L: SubLowering>(
    low: L,
    element: Node,
    id: Seq<char>,
    condition: Option<Node>,
    scope: Scope<'_>,
    first: Machine,
    start: SlotsView,
    elements: Elements,
    xs: int,
    v: int,
    rounds: nat,
) -> bool {
    exists|e: int| #[trigger]
        is_closure(low, id, element, scope, first, start, e, rounds) && match condition {
            None => elements(v) == mapped(first.world, elements(xs), e),
            Some(cond) => exists|c: int| #[trigger]
                is_closure(low, id, cond, scope, first, start, c, rounds) && elements(v) == mapped(
                    first.world,
                    accepted(first.world, elements(xs), c),
                    e,
                ),
        }
}

/// The map pass is one with a routine that maps.
proof fn lemma_map_pass<L: SubLowering>(
    low: L,
    table: StdlibTable,
    elem: IrType,
    src_ty: Option<IrType>,
    id: Seq<char>,
    body: Node,
    from: int,
    last: Option<ErrorView>,
    range: TokenRange,
    scope: Scope<'_>,
    at: SlotsView,
) -> (k: int)
    requires
        0 <= from,
    ensures
        map_pass(low, table, elem, src_ty, id, body, from, last, range, scope, at) is Ok ==> {
            &&& 0 <= k < map_routines(elem).len()
            &&& pass_tail(
                low,
                table,
                map_routines(elem)[k].1,
                id,
                body,
                Some(map_routines(elem)[k].0),
                None,
                range,
                scope,
                at,
            ) == map_pass(low, table, elem, src_ty, id, body, from, last, range, scope, at)
            &&& maps(map_routines(elem)[k].1)
        },
    decreases map_routines(elem).len() - from,
{
    let routines = map_routines(elem);
    if from >= routines.len() {
        from
    } else {
        let (ret_ty, name) = routines[from];
        match pass_tail(low, table, name, id, body, Some(ret_ty), None, range, scope, at) {
            Ok(_) => from,
            Err(ErrorView::StdlibArgTypeMismatch { .. }) => lemma_map_pass(
                low,
                table,
                elem,
                src_ty,
                id,
                body,
                from + 1,
                last,
                range,
                scope,
                at,
            ),
            Err(e) => lemma_map_pass(
                low,
                table,
                elem,
                src_ty,
                id,
                body,
                from + 1,
                Some(e),
                range,
                scope,
                at,
            ),
        }
    }
}

pub proof fn lemma_answer(
    table: StdlibTable,
    world: World,
    elements: Elements,
    name: Seq<char>,
    xs: int,
    c: int,
    v: int,
)
    requires
        lists_work(table, world, elements),
        answered(table, world, name, seq![xs, c], v),
    ensures
        maps(name) ==> elements(v) == mapped(world, elements(xs), c),
        filters(name) ==> elements(v) == accepted(world, elements(xs), c),
{
    let i = choose|i: int| #[trigger]
        routine_named(table, name, i) && v == (world.routine)(i as u32, seq![xs, c]);
    assert(given(world, i, xs, c) == v);
}

/// The source of a comprehension behind its condition.
proof fn lemma_filtered<L: SubLowering>(
    low: L,
    table: StdlibTable,
    src: FragmentView,
    routine: Option<Seq<char>>,
    id: Seq<char>,
    condition: Option<Node>,
    range: TokenRange,
    scope: Scope<'_>,
    at: SlotsView,
    elements: Elements,
    s: Machine,
    rounds: nat,
) -> (ys: int)
    requires
        table.wf(),
        steady_operands(low, rounds),
        lists_work(table, s.world, elements),
        tight(s),
        steady(src, at, rounds),
        routine matches Some(name) ==> filters(name),
        filtered_source(low, table, src, routine, id, condition, range, scope) is Ok,
    ensures
        ({
            let g = filtered_source(low, table, src, routine, id, condition, range, scope)->Ok_0;
            &&& at.lets <= g.slots.lets
            &&& at.records <= g.slots.records
            &&& finishing_operands(low, rounds) && run(src.ops, s, rounds) is Next ==> run(
                g.ops,
                s,
                rounds,
            ) is Next
            &&& run(g.ops, s, rounds) matches Flow::Next(t) ==> {
                &&& run(src.ops, s, rounds) matches Flow::Next(u)
                &&& u.stack == s.stack.push(u.operand(0))
                &&& t.stack == s.stack.push(ys)
                &&& tight(t)
                &&& undisturbed(s, t, at, s.free, s.free)
                &&& match condition {
                    None => ys == u.operand(0),
                    Some(cond) => exists|c: int| #[trigger]
                        is_closure(low, id, cond, scope, s, at, c, rounds) && elements(ys)
                            == accepted(s.world, elements(u.operand(0)), c),
                }
            }
        }),
{
    let g = filtered_source(low, table, src, routine, id, condition, range, scope)->Ok_0;
    let ys = run(g.ops, s, rounds)->Next_0.operand(0);
    match condition {
        None => {},
        Some(cond) => {
            let name = routine->0;
            let tail = pass_tail(
                low,
                table,
                name,
                id,
                cond,
                None,
                None,
                range,
                scope,
                src.slots,
            )->Ok_0;
            assert(g.ops == src.ops + tail.ops);
            lemma_run_concat(src.ops, tail.ops, 0, s, rounds);
            if let Flow::Next(u) = run(src.ops, s, rounds) {
                let xs = u.operand(0);
                let c = lemma_pass(
                    low,
                    table,
                    name,
                    id,
                    cond,
                    None,
                    None,
                    range,
                    scope,
                    s,
                    at,
                    src.slots,
                    u,
                    xs,
                    rounds,
                );
                if let Flow::Next(t) = run(tail.ops, u, rounds) {
                    assert(u.stack.drop_last() =~= s.stack);
                    lemma_answer(table, s.world, elements, name, xs, c, ys);
                }
            } else {
                lemma_pass_grows(
                    low,
                    table,
                    name,
                    id,
                    cond,
                    None,
                    None,
                    range,
                    scope,
                    src.slots,
                    rounds,
                );
            }
        },
    }
    ys
}

proof fn lemma_pass_grows<L: SubLowering>(
    low: L,
    table: StdlibTable,
    routine: Seq<char>,
    id: Seq<char>,
    body: Node,
    ret_ty: Option<IrType>,
    expected: Option<TypeRepr>,
    range: TokenRange,
    scope: Scope<'_>,
    at: SlotsView,
    rounds: nat,
)
    requires
        steady_operands(low, rounds),
        pass_tail(low, table, routine, id, body, ret_ty, expected, range, scope, at) is Ok,
    ensures
        ({
            let g = pass_tail(
                low,
                table,
                routine,
                id,
                body,
                ret_ty,
                expected,
                range,
                scope,
                at,
            )->Ok_0;
            at.lets <= g.slots.lets && at.records <= g.slots.records
        }),
{
    let (params, declared) = table.closure_sig(routine, 1)->0;
    let ret = match ret_ty {
        Some(t) => t,
        None => declared,
    };
    let f = low.unary_lowered(id, body, params, ret, expected, scope, at)->Ok_0;
    assert(steady(f, at, rounds));
}

/// A source with a map pass behind it.
proof fn lemma_mapped_behind<L: SubLowering>(
    low: L,
    table: StdlibTable,
    src: FragmentView,
    list: FragmentView,
    routine: Seq<char>,
    ret_ty: Option<IrType>,
    expected: Option<TypeRepr>,
    element: Node,
    id: Seq<char>,
    condition: Option<Node>,
    range: TokenRange,
    scope: Scope<'_>,
    at: SlotsView,
    elements: Elements,
    ys: int,
    s: Machine,
    rounds: nat,
)
    requires
        table.wf(),
        steady_operands(low, rounds),
        lists_work(table, s.world, elements),
        tight(s),
        maps(routine),
        at.lets <= list.slots.lets,
        at.records <= list.slots.records,
        pass_tail(
            low,
            table,
            routine,
            id,
            element,
            ret_ty,
            expected,
            range,
            scope,
            list.slots,
        ) is Ok,
        run(list.ops, s, rounds) matches Flow::Next(t) ==> {
            &&& run(src.ops, s, rounds) matches Flow::Next(u)
            &&& t.stack == s.stack.push(ys)
            &&& tight(t)
            &&& undisturbed(s, t, at, s.free, s.free)
            &&& match condition {
                None => ys == u.operand(0),
                Some(cond) => exists|c: int| #[trigger]
                    is_closure(low, id, cond, scope, s, at, c, rounds) && elements(ys) == accepted(
                        s.world,
                        elements(u.operand(0)),
                        c,
                    ),
            }
        },
    ensures
        ({
            let tail = pass_tail(
                low,
                table,
                routine,
                id,
                element,
                ret_ty,
                expected,
                range,
                scope,
                list.slots,
            )->Ok_0;
            let ops = list.ops + tail.ops;
            &&& finishing_operands(low, rounds) && run(list.ops, s, rounds) is Next ==> run(
                ops,
                s,
                rounds,
            ) is Next
            &&& run(ops, s, rounds) matches Flow::Next(t) ==> {
                &&& run(src.ops, s, rounds) matches Flow::Next(u)
                &&& t.stack == s.stack.push(t.operand(0))
                &&& comprehends(
                    low,
                    element,
                    id,
                    condition,
                    scope,
                    s,
                    at,
                    elements,
                    u.operand(0),
                    t.operand(0),
                    rounds,
                )
            }
        }),
{
    let tail = pass_tail(
        low,
        table,
        routine,
        id,
        element,
        ret_ty,
        expected,
        range,
        scope,
        list.slots,
    )->Ok_0;
    lemma_run_concat(list.ops, tail.ops, 0, s, rounds);
    if let Flow::Next(w) = run(list.ops, s, rounds) {
        let e = lemma_pass(
            low,
            table,
            routine,
            id,
            element,
            ret_ty,
            expected,
            range,
            scope,
            s,
            at,
            list.slots,
            w,
            ys,
            rounds,
        );
        if let Flow::Next(t) = run(tail.ops, w, rounds) {
            assert(w.stack.drop_last() =~= s.stack);
            lemma_answer(table, s.world, elements, routine, ys, e, t.operand(0));
            assert(is_closure(low, id, element, scope, s, at, e, rounds));
        }
    }
}

/// A list comprehension evaluates its source once, and leaves the list of what
/// its element expression makes of those source elements for which its condition
/// holds, in their order.
pub proof fn law_comprehension_filters_and_maps<L: SubLowering>(
    low: L,
    table: StdlibTable,
    element: Node,
    id: Seq<char>,
    iterable: Node,
    condition: Option<Node>,
    range: TokenRange,
    scope: Scope<'_>,
    at: SlotsView,
    elements: Elements,
    s: Machine,
    rounds: nat,
)
    requires
        table.wf(),
        steady_operands(low, rounds),
        lists_work(table, s.world, elements),
        tight(s),
        comprehension(low, table, element, id, iterable, condition, range, scope, at) is Ok,
    ensures
        ({
            let g = comprehension(
                low,
                table,
                element,
                id,
                iterable,
                condition,
                range,
                scope,
                at,
            )->Ok_0;
            let src = low.lowered(iterable, scope, at)->Ok_0;
            &&& finishing_operands(low, rounds) ==> run(g.ops, s, rounds) is Next
            &&& run(g.ops, s, rounds) matches Flow::Next(t) ==> {
                &&& run(src.ops, s, rounds) matches Flow::Next(u)
                &&& t.stack == s.stack.push(t.operand(0))
                &&& comprehends(
                    low,
                    element,
                    id,
                    condition,
                    scope,
                    s,
                    at,
                    elements,
                    u.operand(0),
                    t.operand(0),
                    rounds,
                )
            }
        }),
{
    let src = low.lowered(iterable, scope, at)->Ok_0;
    let elem = hof_element(src.ty->0)->0;
    let routine = filter_routine(elem);
    assert(steady(src, at, rounds));
    if finishing_operands(low, rounds) {
        assert(run(low.lowered(iterable, scope, at)->Ok_0.ops, s, rounds) is Next);
    }
    let list = filtered_source(low, table, src, routine, id, condition, range, scope)->Ok_0;
    let ys = lemma_filtered(
        low,
        table,
        src,
        routine,
        id,
        condition,
        range,
        scope,
        at,
        elements,
        s,
        rounds,
    );
    let k = lemma_map_pass(
        low,
        table,
        elem,
        src.ty,
        id,
        element,
        0,
        None,
        range,
        scope,
        list.slots,
    );
    lemma_mapped_behind(
        low,
        table,
        src,
        list,
        map_routines(elem)[k].1,
        Some(map_routines(elem)[k].0),
        None,
        element,
        id,
        condition,
        range,
        scope,
        at,
        elements,
        ys,
        s,
        rounds,
    );
}

/// So does a comprehension whose elements are variant records.
pub proof fn law_variant_comprehension_filters_and_maps<L: SubLowering>(
    low: L,
    table: StdlibTable,
    expected: TypeRepr,
    element: Node,
    id: Seq<char>,
    iterable: Node,
    condition: Option<Node>,
    range: TokenRange,
    scope: Scope<'_>,
    at: SlotsView,
    elements: Elements,
    s: Machine,
    rounds: nat,
)
    requires
        table.wf(),
        steady_operands(low, rounds),
        lists_work(table, s.world, elements),
        tight(s),
        variant_comprehension(
            low,
            table,
            expected,
            element,
            id,
            iterable,
            condition,
            range,
            scope,
            at,
        ) is Ok,
    ensures
        ({
            let g = variant_comprehension(
                low,
                table,
                expected,
                element,
                id,
                iterable,
                condition,
                range,
                scope,
                at,
            )->Ok_0;
            let src = low.lowered(iterable, scope, at)->Ok_0;
            &&& finishing_operands(low, rounds) ==> run(g.ops, s, rounds) is Next
            &&& run(g.ops, s, rounds) matches Flow::Next(t) ==> {
                &&& run(src.ops, s, rounds) matches Flow::Next(u)
                &&& t.stack == s.stack.push(t.operand(0))
                &&& comprehends(
                    low,
                    element,
                    id,
                    condition,
                    scope,
                    s,
                    at,
                    elements,
                    u.operand(0),
                    t.operand(0),
                    rounds,
                )
            }
        }),
{
    let src = low.lowered(iterable, scope, at)->Ok_0;
    let routine = filter_routine(hof_element(src.ty->0)->0);
    assert(steady(src, at, rounds));
    if finishing_operands(low, rounds) {
        assert(run(low.lowered(iterable, scope, at)->Ok_0.ops, s, rounds) is Next);
    }
    let list = filtered_source(low, table, src, routine, id, condition, range, scope)->Ok_0;
    let ys = lemma_filtered(
        low,
        table,
        src,
        routine,
        id,
        condition,
        range,
        scope,
        at,
        elements,
        s,
        rounds,
    );
    lemma_mapped_behind(
        low,
        table,
        src,
        list,
        variant_map_routine(src.ty)->0,
        None,
        Some(expected),
        element,
        id,
        condition,
        range,
        scope,
        at,
        elements,
        ys,
        s,
        rounds,
    );
}

} // verus!

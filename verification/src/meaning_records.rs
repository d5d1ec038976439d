//! What the code that reads names, fields and payloads leaves on the machine.

use vstd::prelude::*;

use crate::ast::{plain_name, TokenKey, TokenRange};
use crate::canonical::table_index;
use crate::error::ErrorView;
use crate::fragment::{FragmentView, LetBinding, ScalarConst, Scope, SlotsView};
use crate::ir::{sop, IrType, MachineSlot, SimpleOp, TaggedOpView};
use crate::meaning::{
    lemma_popped, lemma_run_concat, lemma_simple, reads, record_op_step, run, run_from,
    simple_step, truth, width_of, Cell, Flow, Machine,
};
use crate::records::{positional_fields, record_ir_type, RecordLowering};
use crate::reference::{
    field_schema, field_walk, head_of, method_param_index, variable, Frame, MethodParam,
};
use crate::shape::{binding_index, field_index, LocalBinding};
use crate::text::{decimal_chars, law_decimal_reads_back};
use crate::types::{Field, Schema, TypeRepr};
use crate::workspace::SchemaDef;

verus! {

// ---------------------------------------------------------------------------
// Single instructions.
// ---------------------------------------------------------------------------

/// Code of one instruction that hands on.
pub proof fn lemma_single(op: SimpleOp, range: TokenRange, s: Machine, t: Machine, rounds: nat)
    requires
        simple_step(op, s) == Flow::Next(t),
    ensures
        run(seq![sop(op, range)], s, rounds) == Flow::Next(t),
{
    let code = seq![sop(op, range)];
    lemma_simple(code, 0, op, s, rounds);
    assert(run_from(code, 1, t, rounds) == Flow::Next(t));
}

/// Code with one more instruction that hands on.
pub proof fn lemma_one_more(
    code: Seq<TaggedOpView>,
    op: SimpleOp,
    range: TokenRange,
    s: Machine,
    t: Machine,
    u: Machine,
    rounds: nat,
)
    requires
        run(code, s, rounds) == Flow::Next(t),
        simple_step(op, t) == Flow::Next(u),
    ensures
        run(code.push(sop(op, range)), s, rounds) == Flow::Next(u),
{
    let last = seq![sop(op, range)];
    lemma_run_concat(code, last, 0, s, rounds);
    lemma_single(op, range, t, u, rounds);
    assert(code.push(sop(op, range)) =~= code + last);
}

// ---------------------------------------------------------------------------
// Names.
// ---------------------------------------------------------------------------

/// The innermost binding of a name is the one that counts, and the others stay
/// as they were.
pub proof fn law_innermost_binding_counts<'a>(b: LetBinding<'a>, rest: Scope<'a>, name: Seq<char>)
    ensures
        b.name@ == name ==> Scope::Bind(b, &rest).find(name) == Some(b),
        b.name@ != name ==> Scope::Bind(b, &rest).find(name) == rest.find(name),
{
}

/// The name stands for the value: inside a method `self` is the receiver; then
/// the innermost let binding, whose slot holds the value; then, inside a method,
/// the method parameter, and outside the entry parameter, which the parameter
/// record holds at its offset.
pub open spec fn stands_for(
    frame: Frame<'_>,
    name: Seq<char>,
    scope: Scope<'_>,
    s: Machine,
    v: int,
) -> bool {
    let in_method = frame.self_binding is Some;
    if in_method && name == "self"@ {
        let k = frame.self_binding->0.wasm_local_idx;
        s.locals.dom().contains(k) && s.locals[k] == v
    } else if scope.find(name) is Some {
        let k = scope.find(name)->0.idx;
        s.lets.dom().contains(k) && s.lets[k] == v
    } else if in_method {
        exists|i: int| #[trigger]
            first_method_param(frame.method_params@, name, i) && s.locals.dom().contains(
                frame.method_params@[i].wasm_local_idx,
            ) && s.locals[frame.method_params@[i].wasm_local_idx] == v
    } else {
        exists|i: int| #[trigger]
            first_param(frame.params@, name, i) && s.locals.dom().contains(0) && reads(
                s.mem,
                s.locals[0] + frame.params@[i].offset,
                width_of(frame.params@[i].ty),
                v,
            )
    }
}

/// The value that the name stands for is a pointer to a record of the type.
pub open spec fn points_at(
    frame: Frame<'_>,
    name: Seq<char>,
    scope: Scope<'_>,
    schema: Schema,
) -> bool {
    let in_method = frame.self_binding is Some;
    if in_method && name == "self"@ {
        frame.self_binding->0.schema == schema
    } else if scope.find(name) is Some {
        let b = scope.find(name)->0;
        b.ty == IrType::I32 && (b.schema_brand matches Some(brand) && exists|j: int| #[trigger]
            first_type(frame.types.entries@, brand@, j) && (
            frame.types.entries@[j].1.shape matches Ok(TypeRepr::Schema { schema: declared })
                && *declared == schema))
    } else if in_method {
        exists|i: int| #[trigger]
            first_method_param(frame.method_params@, name, i) && frame.method_params@[i].ty
                == IrType::I32 && frame.method_params@[i].schema == Some(schema)
    } else {
        exists|i: int| #[trigger]
            first_param(frame.params@, name, i) && frame.params@[i].ty == IrType::I32 && (
            *frame.params@[i].type_repr matches TypeRepr::Schema { schema: declared } && *declared
                == schema)
    }
}

/// The declared type is the first of the name.
pub open spec fn first_type(types: Seq<(String, &SchemaDef)>, name: Seq<char>, i: int) -> bool {
    &&& 0 <= i < types.len()
    &&& types[i].0@ == name
    &&& forall|j: int| 0 <= j < i ==> (#[trigger] types[j]).0@ != name
}

proof fn lemma_first_type(types: Seq<(String, &SchemaDef)>, name: Seq<char>, i: int, from: int)
    requires
        first_type(types, name, i),
        0 <= from <= i,
    ensures
        table_index(types, name, from) == Some(i),
    decreases i - from,
{
    if from < i {
        assert(types[from].0@ != name);
        lemma_first_type(types, name, i, from + 1);
    }
}

proof fn lemma_head_points(frame: Frame<'_>, name: Seq<char>, scope: Scope<'_>, schema: Schema)
    requires
        points_at(frame, name, scope, schema),
    ensures
        head_of(frame, name, scope) matches Some(head) && head.schema == Some(schema) && head.ty
            == IrType::I32,
{
    if frame.self_binding is Some && name == "self"@ {
    } else if scope.find(name) is Some {
        let brand = scope.find(name)->0.schema_brand->0@;
        let j = choose|j: int| #[trigger]
            first_type(frame.types.entries@, brand, j) && (
            frame.types.entries@[j].1.shape matches Ok(TypeRepr::Schema { schema: declared })
                && *declared == schema);
        lemma_first_type(frame.types.entries@, brand, j, 0);
    } else if frame.self_binding is Some {
        let i = choose|i: int| #[trigger]
            first_method_param(frame.method_params@, name, i) && frame.method_params@[i].ty
                == IrType::I32 && frame.method_params@[i].schema == Some(schema);
        lemma_first_method_param(frame.method_params@, name, i, 0);
    } else {
        let i = choose|i: int| #[trigger]
            first_param(frame.params@, name, i) && frame.params@[i].ty == IrType::I32 && (
            *frame.params@[i].type_repr matches TypeRepr::Schema { schema: declared } && *declared
                == schema);
        lemma_first_param(frame.params@, name, i, 0);
    }
}

/// The parameter is the first of the name.
pub open spec fn first_param(params: Seq<LocalBinding<'_>>, name: Seq<char>, i: int) -> bool {
    &&& 0 <= i < params.len()
    &&& params[i].name@ == name
    &&& forall|j: int| 0 <= j < i ==> (#[trigger] params[j]).name@ != name
}

/// The method parameter is the first of the name.
pub open spec fn first_method_param(params: Seq<MethodParam>, name: Seq<char>, i: int) -> bool {
    &&& 0 <= i < params.len()
    &&& params[i].name@ == name
    &&& forall|j: int| 0 <= j < i ==> (#[trigger] params[j]).name@ != name
}

proof fn lemma_first_param(params: Seq<LocalBinding<'_>>, name: Seq<char>, i: int, from: int)
    requires
        first_param(params, name, i),
        0 <= from <= i,
    ensures
        binding_index(params, name, from) == Some(i),
    decreases i - from,
{
    if from < i {
        assert(params[from].name@ != name);
        lemma_first_param(params, name, i, from + 1);
    }
}

proof fn lemma_first_method_param(params: Seq<MethodParam>, name: Seq<char>, i: int, from: int)
    requires
        first_method_param(params, name, i),
        0 <= from <= i,
    ensures
        method_param_index(params, name, from) == Some(i),
    decreases i - from,
{
    if from < i {
        assert(params[from].name@ != name);
        lemma_first_method_param(params, name, i, from + 1);
    }
}

/// The instruction at the head of a path leaves the value that the name stands
/// for.
proof fn lemma_head_reads(
    frame: Frame<'_>,
    name: Seq<char>,
    scope: Scope<'_>,
    s: Machine,
    v: int,
)
    requires
        stands_for(frame, name, scope, s, v),
    ensures
        head_of(frame, name, scope) matches Some(head) && simple_step(head.op, s) == Flow::Next(
            s.pushed(v),
        ),
{
    reveal(record_op_step);
    if frame.self_binding is Some && name == "self"@ {
    } else if scope.find(name) is Some {
    } else if frame.self_binding is Some {
        let i = choose|i: int| #[trigger]
            first_method_param(frame.method_params@, name, i) && s.locals.dom().contains(
                frame.method_params@[i].wasm_local_idx,
            ) && s.locals[frame.method_params@[i].wasm_local_idx] == v;
        lemma_first_method_param(frame.method_params@, name, i, 0);
    } else {
        let i = choose|i: int| #[trigger]
            first_param(frame.params@, name, i) && s.locals.dom().contains(0) && reads(
                s.mem,
                s.locals[0] + frame.params@[i].offset,
                width_of(frame.params@[i].ty),
                v,
            );
        lemma_first_param(frame.params@, name, i, 0);
    }
}

/// A name leaves the value that it stands for, and changes nothing else.
pub proof fn law_name_reads_its_value<L: RecordLowering>(
    low: L,
    frame: Frame<'_>,
    path: Seq<TokenKey>,
    range: TokenRange,
    scope: Scope<'_>,
    at: SlotsView,
    s: Machine,
    v: int,
    rounds: nat,
)
    requires
        path.len() == 1,
        path[0] is String,
        stands_for(frame, path[0]->String_0@, scope, s, v),
        scope.find(path[0]->String_0@) matches Some(b) ==> b.constant is None,
    ensures
        variable(low, frame, path, range, scope, at) matches Ok(f) && run(f.ops, s, rounds)
            == Flow::Next(s.pushed(v)) && f.slots == at,
{
    let name = path[0]->String_0@;
    lemma_head_reads(frame, name, scope, s, v);
    let op = head_of(frame, name, scope)->0.op;
    lemma_single(op, range, s, s.pushed(v), rounds);
}

/// A name that is bound to a literal leaves that literal.
pub proof fn law_name_reads_its_literal<L: RecordLowering>(
    low: L,
    frame: Frame<'_>,
    path: Seq<TokenKey>,
    range: TokenRange,
    scope: Scope<'_>,
    at: SlotsView,
    s: Machine,
    rounds: nat,
)
    requires
        plain_name(path) matches Some(name) && (scope.find(name) matches Some(b)
            && b.constant is Some),
    ensures
        variable(low, frame, path, range, scope, at) matches Ok(f) && run(f.ops, s, rounds)
            == Flow::Next(
            s.pushed(
                match scope.find(plain_name(path)->0)->0.constant->0 {
                    ScalarConst::I64(v) => v as int,
                    ScalarConst::F64(bits) => bits as int,
                    ScalarConst::Bool(v) => truth(v),
                },
            ),
        ),
{
    let c = scope.find(plain_name(path)->0)->0.constant->0;
    let v = match c {
        ScalarConst::I64(v) => v as int,
        ScalarConst::F64(bits) => bits as int,
        ScalarConst::Bool(v) => truth(v),
    };
    lemma_single(c.op(), range, s, s.pushed(v), rounds);
}

// ---------------------------------------------------------------------------
// Fields.
// ---------------------------------------------------------------------------

/// The segment names field number `i` of the record type: by its name, of which
/// it is the first, or in a tuple by its position.
pub open spec fn names_field(schema: Schema, segment: TokenKey, i: int) -> bool {
    &&& 0 <= i < schema.fields@.len()
    &&& match segment {
        TokenKey::String(name, _, _) => first_field(schema.fields@, name@, i),
        TokenKey::Index(k, optional) => !optional && schema.is_tuple && positional_fields(
            schema.fields@,
        ) && i == k,
        _ => false,
    }
}

/// The field is the first of the name.
pub open spec fn first_field(fields: Seq<Field>, name: Seq<char>, i: int) -> bool {
    &&& 0 <= i < fields.len()
    &&& fields[i].name@ == name
    &&& forall|j: int| 0 <= j < i ==> (#[trigger] fields[j]).name@ != name
}

/// The record at `addr` holds `w` in field number `i`: the layout of the type
/// says where.
pub open spec fn holds_field<L: RecordLowering>(
    low: L,
    mem: Map<int, Cell>,
    schema: Schema,
    i: int,
    addr: int,
    w: int,
) -> bool {
    &&& 0 <= i < schema.fields@.len()
    &&& low.layout(schema) matches Ok(layout) && (record_ir_type(schema.fields@[i].ty) matches Some(
        ty,
    ) && reads(mem, addr + layout.fields[i].offset, width_of(ty), w))
}

/// The segments at and behind `from` lead from the record at `addr` to `w`: each
/// names a field of the record that the one before led to.
pub open spec fn leads_to<L: RecordLowering>(
    low: L,
    mem: Map<int, Cell>,
    schema: Schema,
    path: Seq<TokenKey>,
    from: int,
    addr: int,
    w: int,
) -> bool
    decreases path.len() - from,
{
    0 <= from < path.len() && exists|i: int, x: int| #[trigger]
        holds_field(low, mem, schema, i, addr, x) && names_field(schema, path[from], i) && if from
            + 1 == path.len() {
            w == x
        } else {
            schema.fields@[i].ty matches TypeRepr::Schema { schema: inner } && leads_to(
                low,
                mem,
                *inner,
                path,
                from + 1,
                x,
                w,
            )
        }
}

pub proof fn lemma_first_field(fields: Seq<Field>, name: Seq<char>, i: int, from: int)
    requires
        first_field(fields, name, i),
        0 <= from <= i,
    ensures
        field_index(fields, name, from) == Some(i),
    decreases i - from,
{
    if from < i {
        assert(fields[from].name@ != name);
        lemma_first_field(fields, name, i, from + 1);
    }
}

/// Fields that are named by their positions are found by them.
pub proof fn lemma_positional(fields: Seq<Field>, i: int)
    requires
        positional_fields(fields),
        0 <= i < fields.len(),
    ensures
        first_field(fields, decimal_chars(i as nat), i),
        field_index(fields, decimal_chars(i as nat), 0) == Some(i),
{
    let name = decimal_chars(i as nat);
    assert(fields[i].name@ == name);
    assert forall|j: int| 0 <= j < i implies (#[trigger] fields[j]).name@ != name by {
        law_decimal_reads_back(i as nat);
        law_decimal_reads_back(j as nat);
    }
    lemma_first_field(fields, name, i, 0);
}

proof fn lemma_walk<L: RecordLowering>(
    low: L,
    path: Seq<TokenKey>,
    range: TokenRange,
    schema: Schema,
    ty: IrType,
    done: Seq<TaggedOpView>,
    at: SlotsView,
    from: int,
    s: Machine,
    addr: int,
    w: int,
    rounds: nat,
)
    requires
        leads_to(low, s.mem, schema, path, from, addr, w),
        ty.slot_spec() == MachineSlot::I32,
        run(done, s, rounds) == Flow::Next(s.pushed(addr)),
    ensures
        field_walk(low, path, range, Some(schema), ty, done, at, from) matches Ok(f) && run(
            f.ops,
            s,
            rounds,
        ) == Flow::Next(s.pushed(w)) && f.slots == at,
    decreases path.len() - from,
{
    reveal(record_op_step);
    let (i, x) = choose|i: int, x: int| #[trigger]
        holds_field(low, s.mem, schema, i, addr, x) && names_field(schema, path[from], i) && if from
            + 1 == path.len() {
            w == x
        } else {
            schema.fields@[i].ty matches TypeRepr::Schema { schema: inner } && leads_to(
                low,
                s.mem,
                *inner,
                path,
                from + 1,
                x,
                w,
            )
        };
    let layout = low.layout(schema)->Ok_0;
    let irt = record_ir_type(schema.fields@[i].ty)->0;
    let op = SimpleOp::LoadFieldAtAbsolute { offset: layout.fields[i].offset, ty: irt };
    match path[from] {
        TokenKey::String(name, _, _) => {
            lemma_first_field(schema.fields@, name@, i, 0);
        },
        _ => {
            lemma_positional(schema.fields@, i);
        },
    }
    lemma_popped(s, addr, 0);
    assert(simple_step(op, s.pushed(addr)) == Flow::Next(s.pushed(x)));
    lemma_one_more(done, op, range, s, s.pushed(addr), s.pushed(x), rounds);
    let next = done.push(sop(op, range));
    if from + 1 < path.len() {
        match schema.fields@[i].ty {
            TypeRepr::Schema { schema: inner } => {
                lemma_walk(
                    low,
                    path,
                    range,
                    *inner,
                    irt,
                    next,
                    at,
                    from + 1,
                    s,
                    x,
                    w,
                    rounds,
                );
            },
            _ => {},
        }
    } else {
        assert(field_walk(
            low,
            path,
            range,
            field_schema(schema.fields@[i].ty),
            irt,
            next,
            at,
            from + 1,
        ) == Ok::<FragmentView, ErrorView>(FragmentView { ops: next, ty: Some(irt), slots: at }));
    }
}

/// A path into a record leaves what the fields that its segments name lead to,
/// and changes nothing else.
pub proof fn law_path_reads_its_field<L: RecordLowering>(
    low: L,
    frame: Frame<'_>,
    path: Seq<TokenKey>,
    range: TokenRange,
    scope: Scope<'_>,
    at: SlotsView,
    schema: Schema,
    s: Machine,
    addr: int,
    w: int,
    rounds: nat,
)
    requires
        path.len() > 1,
        path[0] is String,
        stands_for(frame, path[0]->String_0@, scope, s, addr),
        scope.narrowed(path[0]->String_0@) is None,
        points_at(frame, path[0]->String_0@, scope, schema),
        leads_to(low, s.mem, schema, path, 1, addr, w),
    ensures
        variable(low, frame, path, range, scope, at) matches Ok(f) && run(f.ops, s, rounds)
            == Flow::Next(s.pushed(w)) && f.slots == at,
{
    let name = path[0]->String_0@;
    lemma_head_reads(frame, name, scope, s, addr);
    lemma_head_points(frame, name, scope, schema);
    let op = head_of(frame, name, scope)->0.op;
    lemma_single(op, range, s, s.pushed(addr), rounds);
    lemma_walk(
        low,
        path,
        range,
        schema,
        IrType::I32,
        seq![sop(op, range)],
        at,
        1,
        s,
        addr,
        w,
        rounds,
    );
}

} // verus!

//! Lowered expressions, run on a small machine.

use relon_ir::ast::{CallArg, ClosureParam, Expr, Node, Operator, TokenKey, TokenRange};
use relon_ir::canonical::SchemaTable;
use relon_ir::error::LoweringError;
use relon_ir::expr::ExprEnv;
use relon_ir::fragment::{
    Fragment, LeafLowering, LetBinding, ScalarConst, Scope, Slots, SubLowering,
};
use relon_ir::index::{lower_dict_string_index, lower_list_int_index};
use relon_ir::ir::{IrType, Op, SimpleOp, TaggedOp, TrapKind};
use relon_ir::levels::lower_levels;
use relon_ir::list_calls::try_lower_materialized_list_reduce;
use relon_ir::materialize::emit_list_value_materialize;
use relon_ir::names::NameTable;
use relon_ir::native_import::HostFnEntry;
use relon_ir::nested::Nested;
use relon_ir::reference::{Frame, MethodParam};
use relon_ir::shape::LocalBinding;
use relon_ir::stdlib::{StdlibEntry, StdlibTable};
use std::collections::HashMap;

const R: TokenRange = TokenRange { start: 0, end: 0 };

// ---------------------------------------------------------------------------
// Source.
// ---------------------------------------------------------------------------

fn node(expr: Expr) -> Node {
    Node {
        expr: Box::new(expr),
        range: R,
        directives: Vec::new(),
        decorators: Vec::new(),
        type_hint: None,
    }
}

fn key(name: &str) -> TokenKey {
    TokenKey::String(name.to_string(), R, false)
}

fn var(name: &str) -> Node {
    node(Expr::Variable(vec![key(name)]))
}

fn num(v: i64) -> Node {
    node(Expr::Int(v))
}

fn args(values: Vec<Node>) -> Vec<CallArg> {
    values.into_iter().map(|value| CallArg { name: None, value }).collect()
}

fn call(path: &[&str], values: Vec<Node>) -> Node {
    node(Expr::FnCall { path: path.iter().map(|p| key(p)).collect(), args: args(values) })
}

fn method(receiver: Node, name: &str, values: Vec<Node>) -> Node {
    node(Expr::FnCall {
        path: vec![TokenKey::Dynamic(receiver, false), key(name)],
        args: args(values),
    })
}

fn closure(params: &[&str], body: Node) -> Node {
    node(Expr::Closure {
        params: params
            .iter()
            .map(|p| ClosureParam { name: p.to_string(), type_hint: None })
            .collect(),
        return_type: None,
        body,
    })
}

fn range2(a: i64, b: i64) -> Node {
    call(&["range"], vec![num(a), num(b)])
}

// ---------------------------------------------------------------------------
// The machine.
// ---------------------------------------------------------------------------

#[derive(Debug, PartialEq, Eq)]
enum Flow {
    Next,
    Jump(u32),
    Trapped(TrapKind),
}

struct Machine {
    stack: Vec<u64>,
    lets: HashMap<u32, u64>,
    memory: Vec<u8>,
}

fn narrow(raw: u64, ty: IrType) -> u64 {
    match ty {
        IrType::I64 | IrType::F64 => raw,
        _ => raw as u32 as u64,
    }
}

impl Machine {
    fn new() -> Self {
        Machine { stack: Vec::new(), lets: HashMap::new(), memory: vec![0; 16] }
    }

    fn pop(&mut self) -> u64 {
        self.stack.pop().expect("the stack is empty")
    }

    fn reserve(&mut self, size: usize) -> u32 {
        while self.memory.len() % 8 != 0 {
            self.memory.push(0);
        }
        let at = self.memory.len();
        self.memory.resize(at + size, 0);
        at as u32
    }

    fn put(&mut self, at: usize, bytes: &[u8]) {
        self.memory[at..at + bytes.len()].copy_from_slice(bytes);
    }

    fn read32(&self, at: usize) -> u32 {
        u32::from_le_bytes(self.memory[at..at + 4].try_into().unwrap())
    }

    fn read64(&self, at: usize) -> u64 {
        u64::from_le_bytes(self.memory[at..at + 8].try_into().unwrap())
    }

    fn string(&mut self, text: &str) -> u32 {
        let at = self.reserve(4 + text.len());
        self.put(at as usize, &(text.len() as u32).to_le_bytes());
        self.put(at as usize + 4, text.as_bytes());
        at
    }

    fn words(&mut self, elements: &[u64]) -> u32 {
        let at = self.reserve(8 + 8 * elements.len());
        self.put(at as usize, &(elements.len() as u32).to_le_bytes());
        for (i, e) in elements.iter().enumerate() {
            self.put(at as usize + 8 + 8 * i, &e.to_le_bytes());
        }
        at
    }

    fn elements(&self, at: usize) -> Vec<u64> {
        let n = self.read32(at) as usize;
        let payload = (at + 4 + 7) & !7;
        (0..n).map(|i| self.read64(payload + 8 * i)).collect()
    }

    fn dict(&mut self, entries: &[(String, i64)]) -> u32 {
        let keys: usize = entries.iter().map(|e| e.0.len()).sum();
        let at = self.reserve(16 + 16 * entries.len() + keys) as usize;
        self.put(at, &(entries.len() as u32).to_le_bytes());
        let mut bytes = 16 + 16 * entries.len();
        for (i, (k, v)) in entries.iter().enumerate() {
            let entry = at + 16 + 16 * i;
            self.put(entry, &(bytes as u32).to_le_bytes());
            self.put(entry + 4, &(k.len() as u32).to_le_bytes());
            self.put(entry + 8, &v.to_le_bytes());
            self.put(at + bytes, k.as_bytes());
            bytes += k.len();
        }
        at as u32
    }

    fn pair(&mut self, ty: IrType) -> (i64, i64) {
        let (b, a) = (self.pop(), self.pop());
        match ty {
            IrType::I64 => (a as i64, b as i64),
            _ => (a as i32 as i64, b as i32 as i64),
        }
    }

    fn result(&mut self, v: i64, ty: IrType) {
        self.stack.push(narrow(v as u64, ty));
    }

    fn simple(&mut self, op: SimpleOp) -> Flow {
        match op {
            SimpleOp::ConstI64(v) => self.stack.push(v as u64),
            SimpleOp::ConstI32(v) => self.stack.push(v as u32 as u64),
            SimpleOp::ConstF64(bits) => self.stack.push(bits),
            SimpleOp::ConstBool(b) => self.stack.push(b as u64),
            SimpleOp::LetGet { idx, ty } => {
                let v = narrow(self.lets[&idx], ty);
                self.stack.push(v);
            }
            SimpleOp::LetSet { idx, .. } => {
                let v = self.pop();
                self.lets.insert(idx, v);
            }
            SimpleOp::Add(IrType::F64) => {
                let (b, a) = (f64::from_bits(self.pop()), f64::from_bits(self.pop()));
                self.stack.push((a + b).to_bits());
            }
            SimpleOp::Add(ty) => {
                let (a, b) = self.pair(ty);
                self.result(a.checked_add(b).expect("an integer overflows"), ty);
            }
            SimpleOp::Sub(ty) => {
                let (a, b) = self.pair(ty);
                self.result(a.checked_sub(b).expect("an integer overflows"), ty);
            }
            SimpleOp::Mul(ty) => {
                let (a, b) = self.pair(ty);
                self.result(a.checked_mul(b).expect("an integer overflows"), ty);
            }
            SimpleOp::BitAnd(ty) => {
                let (a, b) = self.pair(ty);
                self.result(a & b, ty);
            }
            SimpleOp::Eq(ty) => {
                let (a, b) = self.pair(ty);
                self.stack.push((a == b) as u64);
            }
            SimpleOp::Ne(ty) => {
                let (a, b) = self.pair(ty);
                self.stack.push((a != b) as u64);
            }
            SimpleOp::Ge(ty) => {
                let (a, b) = self.pair(ty);
                self.stack.push((a >= b) as u64);
            }
            SimpleOp::Gt(ty) => {
                let (a, b) = self.pair(ty);
                self.stack.push((a > b) as u64);
            }
            SimpleOp::ConvertI64ToF64 => {
                let v = self.pop() as i64;
                self.stack.push((v as f64).to_bits());
            }
            SimpleOp::ReadStringLen => {
                let at = self.pop() as usize;
                let n = self.read32(at) as u64;
                self.stack.push(n);
            }
            SimpleOp::AllocScratchDyn => {
                let size = self.pop() as u32 as usize;
                let at = self.reserve(size);
                self.stack.push(at as u64);
            }
            SimpleOp::LoadI32AtAbsolute { offset } => {
                let at = self.pop() as usize + offset as usize;
                let v = self.read32(at) as u64;
                self.stack.push(v);
            }
            SimpleOp::LoadI64AtAbsolute { offset } | SimpleOp::LoadF64AtAbsolute { offset } => {
                let at = self.pop() as usize + offset as usize;
                let v = self.read64(at);
                self.stack.push(v);
            }
            SimpleOp::LoadI8UAtAbsolute { offset } => {
                let at = self.pop() as usize + offset as usize;
                self.stack.push(self.memory[at] as u64);
            }
            SimpleOp::StoreI32AtAbsolute { offset } => {
                let (v, at) = (self.pop() as u32, self.pop() as usize + offset as usize);
                self.put(at, &v.to_le_bytes());
            }
            SimpleOp::StoreI64AtAbsolute { offset } | SimpleOp::StoreF64AtAbsolute { offset } => {
                let (v, at) = (self.pop(), self.pop() as usize + offset as usize);
                self.put(at, &v.to_le_bytes());
            }
            SimpleOp::Br { label_depth } => return Flow::Jump(label_depth),
            SimpleOp::BrIf { label_depth } => {
                if self.pop() != 0 {
                    return Flow::Jump(label_depth);
                }
            }
            SimpleOp::Trap { kind } => return Flow::Trapped(kind),
            other => panic!("the machine lacks {:?}", other),
        }
        Flow::Next
    }

    fn run(&mut self, ops: &[TaggedOp]) -> Flow {
        for t in ops {
            let flow = match &t.op {
                Op::Simple(s) => self.simple(*s),
                Op::ConstString { value, .. } => {
                    let at = self.string(value);
                    self.stack.push(at as u64);
                    Flow::Next
                }
                Op::ConstListInt { elements, .. } => {
                    let raw: Vec<u64> = elements.iter().map(|e| *e as u64).collect();
                    let at = self.words(&raw);
                    self.stack.push(at as u64);
                    Flow::Next
                }
                Op::ConstListFloat { elements, .. } => {
                    let at = self.words(elements);
                    self.stack.push(at as u64);
                    Flow::Next
                }
                Op::ConstDict { entries, .. } => {
                    let at = self.dict(entries);
                    self.stack.push(at as u64);
                    Flow::Next
                }
                Op::Block { body, .. } => match self.run(body) {
                    Flow::Jump(0) => Flow::Next,
                    Flow::Jump(n) => Flow::Jump(n - 1),
                    other => other,
                },
                Op::Loop { body, .. } => loop {
                    match self.run(body) {
                        Flow::Jump(0) => continue,
                        Flow::Jump(n) => break Flow::Jump(n - 1),
                        other => break other,
                    }
                },
                Op::If { then_body, else_body, .. } => {
                    let taken = self.pop() != 0;
                    match self.run(if taken { then_body } else { else_body }) {
                        Flow::Jump(0) => Flow::Next,
                        Flow::Jump(n) => Flow::Jump(n - 1),
                        other => other,
                    }
                }
                Op::Call { fn_index: 0, .. } => {
                    let at = self.pop() as usize;
                    let total: i64 = self.elements(at).into_iter().map(|v| v as i64).sum();
                    self.stack.push(total as u64);
                    Flow::Next
                }
                other => panic!("the machine lacks {:?}", other),
            };
            if flow != Flow::Next {
                return flow;
            }
        }
        Flow::Next
    }
}

// ---------------------------------------------------------------------------
// Helpers.
// ---------------------------------------------------------------------------

fn routine(name: &str, params: Vec<IrType>, ret: IrType) -> StdlibEntry {
    StdlibEntry { name: name.to_string(), params, ret, closure: None }
}

type Tower<'a> = Nested<'a, Nested<'a, Nested<'a, Nested<'a, LeafLowering>>>>;

fn with_env<T>(run: impl for<'a> FnOnce(ExprEnv<'a>) -> T) -> T {
    let params: Vec<LocalBinding<'_>> = Vec::new();
    let method_params: Vec<MethodParam> = Vec::new();
    let types = SchemaTable { entries: Vec::new() };
    let builtins: Vec<String> = Vec::new();
    let table = StdlibTable {
        entries: vec![
            routine("list_int_sum", vec![IrType::ListInt], IrType::I64),
            routine("same", vec![IrType::String, IrType::String], IrType::Bool),
            routine("both", vec![IrType::Bool, IrType::Bool], IrType::Bool),
        ],
    };
    let host_fns: NameTable<HostFnEntry> = NameTable::new();
    let env = ExprEnv {
        frame: Frame {
            params: &params,
            self_binding: None,
            method_params: &method_params,
            types: &types,
        },
        builtins: &builtins,
        table: &table,
        host_fns: &host_fns,
    };
    run(env)
}

fn with_tower<T>(run: impl for<'a> FnOnce(&Tower<'a>) -> T) -> T {
    with_env(|env| {
        let two = Nested { env, inner: Nested { env, inner: LeafLowering } };
        run(&Nested { env, inner: Nested { env, inner: two } })
    })
}

fn lower_counted(expr: &Node, levels: usize) -> Result<Fragment, LoweringError> {
    with_env(|env| {
        lower_levels(&env, &LeafLowering, levels, expr, &Scope::Empty, &Slots::new())
    })
}

fn lower_at(expr: &Node, at: &Slots) -> Result<Fragment, LoweringError> {
    with_tower(|low| low.lower_node(expr, &Scope::Empty, at))
}

fn lower(expr: &Node) -> Result<Fragment, LoweringError> {
    lower_at(expr, &Slots::new())
}

fn slots_set(ops: &[TaggedOp], out: &mut Vec<(u32, IrType)>) {
    for t in ops {
        match &t.op {
            Op::Simple(SimpleOp::LetSet { idx, ty }) => out.push((*idx, *ty)),
            Op::Block { body, .. } | Op::Loop { body, .. } => slots_set(body, out),
            Op::If { then_body, else_body, .. } => {
                slots_set(then_body, out);
                slots_set(else_body, out);
            }
            _ => {}
        }
    }
}

fn execute(expr: &Node) -> (Machine, u64, IrType) {
    let f = lower(expr).expect("the expression lowers");
    let mut m = Machine::new();
    assert_eq!(m.run(&f.ops), Flow::Next);
    let ty = f.ty.expect("the expression leaves a value");
    assert_eq!(m.stack.len(), 1, "exactly one value is left");
    let top = m.stack[0];
    (m, top, ty)
}

fn int_of(expr: &Node) -> i64 {
    let (_, top, ty) = execute(expr);
    assert_eq!(ty, IrType::I64);
    top as i64
}

fn list_of(expr: &Node) -> Vec<i64> {
    let (m, top, ty) = execute(expr);
    assert_eq!(ty, IrType::ListInt);
    m.elements(top as usize).into_iter().map(|v| v as i64).collect()
}

fn floats_of(expr: &Node) -> Vec<f64> {
    let (m, top, ty) = execute(expr);
    assert_eq!(ty, IrType::ListFloat);
    m.elements(top as usize).into_iter().map(f64::from_bits).collect()
}

fn sum(list: Node) -> Node {
    call(&["list", "sum"], vec![list])
}

fn list(items: Vec<Node>) -> Node {
    node(Expr::List(items))
}

fn plus(a: Node, b: Node) -> Node {
    sum(list(vec![a, b]))
}

// ---------------------------------------------------------------------------
// Tests.
// ---------------------------------------------------------------------------

#[test]
fn the_sum_of_a_range() {
    assert_eq!(int_of(&sum(range2(0, 10))), 45);
    assert_eq!(int_of(&sum(range2(3, 6))), 12);
    assert_eq!(int_of(&sum(range2(5, 5))), 0);
    assert_eq!(int_of(&sum(range2(5, 2))), 0);
    assert_eq!(int_of(&sum(range2(-2, 2))), -2);
    assert_eq!(int_of(&sum(call(&["range"], vec![num(4)]))), 6);
}

#[test]
fn the_sum_of_a_mapped_range() {
    // Each i becomes 0 + .. + (i - 1).
    let body = sum(call(&["range"], vec![var("i")]));
    let mapped = method(range2(1, 6), "map", vec![closure(&["i"], body)]);
    assert_eq!(int_of(&sum(mapped)), 0 + 1 + 3 + 6 + 10);
}

#[test]
fn stages_run_in_order() {
    let first = method(range2(0, 4), "map", vec![closure(&["i"], plus(var("i"), num(10)))]);
    let second = method(first, "map", vec![closure(&["j"], plus(var("j"), var("j")))]);
    assert_eq!(int_of(&sum(second)), 20 + 22 + 24 + 26);
}

#[test]
fn a_filter_drops_what_it_rejects() {
    let keep = |b: bool| closure(&["i"], node(Expr::Bool(b)));
    let some = method(range2(0, 9), "filter", vec![keep(true)]);
    assert_eq!(int_of(&method(some, "len", vec![])), 9);
    let none = method(range2(0, 9), "filter", vec![keep(false)]);
    assert_eq!(int_of(&method(none, "len", vec![])), 0);
    let none = method(range2(0, 9), "filter", vec![keep(false)]);
    assert_eq!(int_of(&sum(none)), 0);
}

#[test]
fn both_ways_to_count_agree() {
    for kept in [true, false] {
        let pred = || closure(&["i"], node(Expr::Bool(kept)));
        let chained = method(method(range2(0, 7), "filter", vec![pred()]), "len", vec![]);
        let called = call(&["_len"], vec![call(&["_list_filter"], vec![range2(0, 7), pred()])]);
        let expected = if kept { 7 } else { 0 };
        assert_eq!(int_of(&chained), expected);
        assert_eq!(int_of(&called), expected);
    }
}

#[test]
fn a_reduction_folds_from_the_left() {
    // (((1 + 1 + 1) + ..): twice what came before, plus the element.
    let body = sum(list(vec![var("acc"), var("acc"), var("i")]));
    let reduced = method(range2(1, 4), "reduce", vec![num(1), closure(&["acc", "i"], body)]);
    assert_eq!(int_of(&reduced), ((1 * 2 + 1) * 2 + 2) * 2 + 3);
}

#[test]
fn a_nested_reduction_visits_every_cell() {
    // range(0, 3).map((i) => range(0, 4).map((j) => i + i + j))
    //     .reduce(5, (acc, row) => acc + list.sum(row))
    let cell = sum(list(vec![var("i"), var("i"), var("j")]));
    let inner = method(range2(0, 4), "map", vec![closure(&["j"], cell)]);
    let outer = method(range2(0, 3), "map", vec![closure(&["i"], inner)]);
    let fold = node(Expr::Binary(Operator::Add, var("acc"), sum(var("row"))));
    let reduced = method(outer, "reduce", vec![num(5), closure(&["acc", "row"], fold)]);
    let expected: i64 = (0..3).map(|i| (0..4).map(|j| i + i + j).sum::<i64>()).sum();
    assert_eq!(int_of(&reduced), 5 + expected);
}

#[test]
fn a_bare_range_is_counted_and_summed() {
    for (a, b) in [(0, 0), (0, 1), (-5, 6), (7, 40), (9, 3), (-8, -2)] {
        let count = if a < b { b - a } else { 0 };
        assert_eq!(int_of(&method(range2(a, b), "len", vec![])), count);
        assert_eq!(2 * int_of(&sum(range2(a, b))), count * (a + b - 1));
    }
}

#[test]
fn rows_are_combined_in_the_written_order() {
    let rows = || {
        let cell = sum(list(vec![var("i"), var("j")]));
        let inner = method(range2(1, 4), "map", vec![closure(&["j"], cell)]);
        method(range2(0, 3), "map", vec![closure(&["i"], inner)])
    };
    let reduced = |op: Operator, acc_first: bool| {
        let (l, r) = (var("acc"), sum(var("row")));
        let fold = if acc_first { Expr::Binary(op, l, r) } else { Expr::Binary(op, r, l) };
        int_of(&method(rows(), "reduce", vec![num(2), closure(&["acc", "row"], node(fold))]))
    };
    // The rows are 6, 9 and 12.
    assert_eq!(reduced(Operator::Sub, true), ((2 - 6) - 9) - 12);
    assert_eq!(reduced(Operator::Sub, false), 12 - (9 - (6 - 2)));
    assert_eq!(reduced(Operator::Mul, true), 2 * 6 * 9 * 12);
}

#[test]
fn a_row_is_reduced_by_its_closure() {
    // A row starts at one, and doubles before each cell.
    let inner = method(range2(0, 3), "map", vec![closure(&["j"], var("j"))]);
    let outer = method(range2(1, 3), "map", vec![closure(&["i"], inner)]);
    let step = sum(list(vec![var("r"), var("r"), var("c")]));
    let row = method(var("row"), "reduce", vec![num(1), closure(&["r", "c"], step)]);
    let fold = node(Expr::Binary(Operator::Add, var("acc"), row));
    let reduced = method(outer, "reduce", vec![num(0), closure(&["acc", "row"], fold)]);
    assert_eq!(int_of(&reduced), 2 * (((1 * 2 + 0) * 2 + 1) * 2 + 2));
}

#[test]
fn a_range_is_materialised() {
    assert_eq!(list_of(&range2(4, 9)), vec![4, 5, 6, 7, 8]);
    assert_eq!(list_of(&range2(4, 4)), Vec::<i64>::new());
    assert_eq!(list_of(&range2(9, 4)), Vec::<i64>::new());
}

#[test]
fn a_computed_list_is_materialised() {
    let items = vec![num(7), plus(num(1), num(2)), sum(range2(0, 5))];
    assert_eq!(list_of(&list(items)), vec![7, 3, 10]);
}

#[test]
fn integers_in_a_float_list_are_widened() {
    let half = node(Expr::Float(0.5f64.to_bits()));
    assert_eq!(floats_of(&list(vec![half, sum(range2(0, 4))])), vec![0.5, 6.0]);
}

#[test]
fn a_constant_list_is_one_constant() {
    let f = lower(&list(vec![num(3), num(-4)])).unwrap();
    assert_eq!(f.ops.len(), 1);
    assert_eq!(f.ops[0].op, Op::ConstListInt { idx: 0, elements: vec![3, -4] });
    assert_eq!(f.slots.pool.int_lists, 1);
}

#[test]
fn the_length_of_a_list_value() {
    assert_eq!(int_of(&call(&["_len"], vec![list(vec![num(3), num(-4), num(8)])])), 3);
}

#[test]
fn equal_strings_share_a_number() {
    // Every operand is lowered behind the one before it, at any depth.
    let text = |t: &str| node(Expr::String(t.to_string()));
    let same = |a: &str, b: &str| call(&["same"], vec![text(a), text(b)]);
    let tree = call(
        &["both"],
        vec![same("a", "b"), call(&["both"], vec![same("b", "c"), same("c", "a")])],
    );
    let f = lower(&tree).unwrap();
    let numbers: Vec<(u32, &str)> = f
        .ops
        .iter()
        .filter_map(|t| match &t.op {
            Op::ConstString { idx, value } => Some((*idx, value.as_str())),
            _ => None,
        })
        .collect();
    let expected = vec![(0, "a"), (1, "b"), (1, "b"), (2, "c"), (2, "c"), (0, "a")];
    assert_eq!(numbers, expected);
    assert_eq!(f.slots.strings.strings, vec!["a", "b", "c"]);
}

#[test]
fn the_name_of_a_type_is_a_string() {
    let (m, top, ty) = execute(&call(&["type"], vec![sum(range2(0, 3))]));
    assert_eq!(ty, IrType::String);
    let n = m.read32(top as usize) as usize;
    assert_eq!(&m.memory[top as usize + 4..top as usize + 4 + n], b"Int");
}

#[test]
fn levels_around_a_lowering_nest_deeper() {
    let chain = |depth: usize| {
        let mut e = num(3);
        for _ in 0..depth {
            e = plus(e, num(1));
        }
        e
    };
    // Each sum takes two levels: one for the call, one for the list.
    assert_eq!(int_of(&chain(1)), 4);
    assert_eq!(int_of(&chain(2)), 5);
    assert!(lower(&chain(3)).is_err());
}

#[test]
fn sums_side_by_side_use_slots_of_their_own() {
    assert_eq!(int_of(&plus(sum(range2(0, 4)), sum(range2(0, 5)))), 16);
    let once = lower(&sum(range2(0, 4))).unwrap().slots.lets;
    let one = lower(&list(vec![sum(range2(0, 4))])).unwrap().slots.lets;
    let two = lower(&list(vec![sum(range2(0, 4)), sum(range2(0, 4))])).unwrap().slots.lets;
    assert_eq!(two - one, once);
}

#[test]
fn a_bound_that_is_no_integer_is_rejected() {
    let bad = sum(call(&["range"], vec![node(Expr::Bool(true))]));
    assert_eq!(
        lower(&bad),
        Err(LoweringError::ExpectedInt { got: Some(IrType::Bool), range: R })
    );
}

#[test]
fn a_list_is_read_by_its_index() {
    let f = lower_list_int_index(
        &num(2),
        R,
        &Scope::Empty,
        &Slots::new(),
        &LeafLowering,
    )
    .unwrap();
    let mut m = Machine::new();
    let at = m.words(&[11, 22, 33]);
    m.stack.push(at as u64);
    assert_eq!(m.run(&f.ops), Flow::Next);
    assert_eq!(m.stack, vec![33]);
}

#[test]
fn a_dictionary_is_probed_by_its_keys() {
    let entries = vec![
        ("one".to_string(), 1),
        ("three".to_string(), 3),
        ("tow".to_string(), -7),
        ("two".to_string(), 2),
    ];
    let probe = |key: &str| {
        let f = lower_dict_string_index(
            &node(Expr::String(key.to_string())),
            R,
            &Scope::Empty,
            &Slots::new(),
            &LeafLowering,
        )
        .unwrap();
        assert_eq!(f.ty, Some(IrType::I64));
        let mut m = Machine::new();
        let at = m.dict(&entries);
        m.stack.push(at as u64);
        match m.run(&f.ops) {
            Flow::Next => Ok(m.stack[0] as i64),
            Flow::Trapped(kind) => Err(kind),
            other => panic!("the probe ended in {:?}", other),
        }
    };
    assert_eq!(probe("one"), Ok(1));
    assert_eq!(probe("two"), Ok(2));
    assert_eq!(probe("tow"), Ok(-7));
    assert_eq!(probe("three"), Ok(3));
    assert!(probe("on").is_err());
    assert!(probe("twx").is_err());
    assert!(probe("").is_err());
}

#[test]
fn a_mapped_range_is_materialised() {
    let mapped = method(range2(2, 5), "map", vec![closure(&["i"], plus(var("i"), num(10)))]);
    let f = with_tower(|low| {
        emit_list_value_materialize(&mapped.expr, R, &Scope::Empty, &Slots::new(), low)
    })
    .unwrap();
    let mut m = Machine::new();
    assert_eq!(m.run(&f.ops), Flow::Next);
    assert_eq!(m.stack.len(), 1);
    assert_eq!(f.ty, Some(IrType::ListInt));
    assert_eq!(m.elements(m.stack[0] as usize), vec![12, 13, 14]);
}

#[test]
fn rows_of_a_nested_list_are_lists() {
    // range(0, 3).map((i) => range(i, 3).map((j) => i + j))
    let inner_range = call(&["range"], vec![var("i"), num(3)]);
    let inner = method(inner_range, "map", vec![closure(&["j"], plus(var("i"), var("j")))]);
    let outer = method(range2(0, 3), "map", vec![closure(&["i"], inner)]);
    let f = with_tower(|low| {
        emit_list_value_materialize(&outer.expr, R, &Scope::Empty, &Slots::new(), low)
    })
    .unwrap();
    let mut m = Machine::new();
    assert_eq!(m.run(&f.ops), Flow::Next);
    let rows: Vec<Vec<u64>> =
        m.elements(m.stack[0] as usize).into_iter().map(|row| m.elements(row as usize)).collect();
    assert_eq!(rows, vec![vec![0, 1, 2], vec![2, 3], vec![4]]);
}

#[test]
fn what_is_no_range_is_not_materialised() {
    let e = num(3);
    let r = with_tower(|low| {
        emit_list_value_materialize(&e.expr, R, &Scope::Empty, &Slots::new(), low)
    });
    assert_eq!(
        r,
        Err(LoweringError::UnsupportedExpr {
            kind: "where-bound list value is neither a bare range nor a range().map((p) => ...)"
                .to_string(),
            range: R,
        })
    );
}

#[test]
fn a_bound_list_is_folded_element_by_element() {
    let outer = Scope::Empty;
    let binding = LetBinding {
        name: "c".to_string(),
        idx: 0,
        ty: IrType::ListInt,
        schema_brand: None,
        type_repr: None,
        closure: None,
        constant: None,
    };
    let scope = Scope::Bind(binding, &outer);
    let body = sum(list(vec![var("acc"), var("acc"), var("x")]));
    let path = vec![key("c"), key("reduce")];
    let operands = args(vec![num(1), closure(&["acc", "x"], body)]);
    let f = with_tower(|low| {
        try_lower_materialized_list_reduce(
            &path,
            &operands,
            R,
            &scope,
            &Slots::new().reserve(1),
            low,
        )
    })
    .unwrap()
    .unwrap();
    let mut m = Machine::new();
    let at = m.words(&[4, 5, 6]);
    m.lets.insert(0, at as u64);
    assert_eq!(m.run(&f.ops), Flow::Next);
    assert_eq!(m.stack, vec![((1 * 2 + 4) * 2 + 5) * 2 + 6]);
    // The list itself stays where it was.
    let mut set = Vec::new();
    slots_set(&f.ops, &mut set);
    assert!(set.iter().all(|(idx, _)| *idx != 0));
}

#[test]
fn fragments_behind_one_another_share_no_slot() {
    let exprs = vec![
        sum(range2(0, 4)),
        list(vec![plus(num(1), num(2)), sum(range2(0, 3))]),
        range2(1, 4),
        call(&["type"], vec![sum(range2(0, 3))]),
    ];
    let mut at = Slots::new();
    let mut seen: HashMap<u32, IrType> = HashMap::new();
    for e in &exprs {
        let f = lower_at(e, &at).unwrap();
        let mut set = Vec::new();
        slots_set(&f.ops, &mut set);
        assert!(!set.is_empty());
        for (idx, _) in &set {
            assert!(at.lets <= *idx && *idx < f.slots.lets);
            assert!(!seen.contains_key(idx));
        }
        for (idx, ty) in set {
            // A slot is set again and again, but under one type.
            assert_eq!(*seen.entry(idx).or_insert(ty), ty);
        }
        at = f.slots;
    }
}

#[test]
fn constant_lists_are_numbered_one_by_one() {
    let ints = |v: i64| list(vec![num(v)]);
    let first = lower(&ints(1)).unwrap();
    let second = lower_at(&ints(1), &first.slots).unwrap();
    assert_eq!(first.ops[0].op, Op::ConstListInt { idx: 0, elements: vec![1] });
    assert_eq!(second.ops[0].op, Op::ConstListInt { idx: 1, elements: vec![1] });
}

#[test]
fn the_argument_of_type_is_evaluated() {
    let arg = sum(range2(0, 3));
    let alone = lower(&arg).unwrap();
    let f = lower(&call(&["type"], vec![arg])).unwrap();
    assert_eq!(f.ops[..alone.ops.len()], alone.ops[..]);
    assert_eq!(f.ops.len(), alone.ops.len() + 2);
}

#[test]
fn the_error_of_the_argument_of_type_is_passed_on() {
    assert_eq!(
        lower(&call(&["type"], vec![var("nobody")])),
        Err(LoweringError::UnresolvedVariable { name: "nobody".to_string(), range: R })
    );
}

#[test]
fn a_routine_takes_arguments_of_its_types() {
    let text = node(Expr::String("a".to_string()));
    assert_eq!(
        lower(&call(&["same"], vec![text, num(1)])),
        Err(LoweringError::StdlibArgTypeMismatch {
            name: "same".to_string(),
            arg_idx: 1,
            got: IrType::I64,
            expected: IrType::String,
            range: R,
        })
    );
}

#[test]
fn a_bound_literal_is_folded_at_every_depth() {
    let outer = Scope::Empty;
    let b = LetBinding {
        name: "k".to_string(),
        idx: 5,
        ty: IrType::I64,
        schema_brand: None,
        type_repr: None,
        closure: None,
        constant: Some(ScalarConst::I64(7)),
    };
    let scope = Scope::Bind(b, &outer);
    let at = Slots::new();
    let leaf = LeafLowering.lower_node(&var("k"), &scope, &at).unwrap();
    assert_eq!(leaf.ops[0].op, Op::Simple(SimpleOp::ConstI64(7)));
    assert_eq!(with_tower(|low| low.lower_node(&var("k"), &scope, &at)).unwrap(), leaf);
}

#[test]
fn a_further_level_changes_nothing_that_is_shallow_enough() {
    let shallow = sum(range2(0, 4));
    let at = Slots::new();
    let (less, more) = with_tower(|low| {
        let less = low.inner.lower_node(&shallow, &Scope::Empty, &at);
        (less, low.lower_node(&shallow, &Scope::Empty, &at))
    });
    assert!(less.is_ok());
    assert_eq!(less, more);
}

#[test]
fn a_counter_nests_as_deep_as_it_says() {
    // Twenty sums inside one another, each of a list of two.
    let mut deep = num(1);
    for _ in 0..20 {
        deep = plus(deep, num(1));
    }
    let f = lower_counted(&deep, 60).expect("the expression lowers");
    let mut m = Machine::new();
    assert_eq!(m.run(&f.ops), Flow::Next);
    assert_eq!(m.stack, vec![21]);
    assert_eq!(lower_counted(&deep, 1000).map(|g| g.ops), Ok(f.ops));
    assert!(lower_counted(&deep, 3).is_err());
}

#[test]
fn a_counter_gives_what_as_many_levels_give() {
    let exprs = || {
        vec![
            num(7),
            sum(range2(0, 10)),
            plus(num(1), sum(range2(0, 3))),
            sum(method(range2(0, 4), "map", vec![closure(&["i"], plus(var("i"), num(10)))])),
            var("unbound"),
        ]
    };
    for expr in exprs() {
        assert_eq!(lower_counted(&expr, 4).map(|f| f.ops), lower(&expr).map(|f| f.ops));
    }
}

use fizzy::{parse, validate, ExecutionResult, Instance, Trap, Value};

const I32: u8 = 0x7f;
const I64: u8 = 0x7e;
const F32: u8 = 0x7d;
const F64: u8 = 0x7c;

fn uleb(mut n: u64) -> Vec<u8> {
    let mut out = Vec::new();
    loop {
        let b = (n & 0x7f) as u8;
        n >>= 7;
        if n == 0 {
            out.push(b);
            return out;
        }
        out.push(b | 0x80);
    }
}

fn sleb(mut n: i64) -> Vec<u8> {
    let mut out = Vec::new();
    loop {
        let b = (n & 0x7f) as u8;
        n >>= 7;
        if (n == 0 && b & 0x40 == 0) || (n == -1 && b & 0x40 != 0) {
            out.push(b);
            return out;
        }
        out.push(b | 0x80);
    }
}

fn cat(parts: &[&[u8]]) -> Vec<u8> {
    let mut out = Vec::new();
    for p in parts {
        out.extend_from_slice(p);
    }
    out
}

fn vector(items: &[Vec<u8>]) -> Vec<u8> {
    let mut out = uleb(items.len() as u64);
    for i in items {
        out.extend_from_slice(i);
    }
    out
}

fn section(id: u8, payload: &[u8]) -> Vec<u8> {
    cat(&[&[id], &uleb(payload.len() as u64), payload])
}

fn functype(params: &[u8], results: &[u8]) -> Vec<u8> {
    cat(&[&[0x60], &uleb(params.len() as u64), params, &uleb(results.len() as u64), results])
}

fn body(locals: &[(u32, u8)], code: &[u8]) -> Vec<u8> {
    let groups: Vec<Vec<u8>> = locals.iter().map(|(n, t)| cat(&[&uleb(*n as u64), &[*t]])).collect();
    let inner = cat(&[&vector(&groups), code, &[0x0b]]);
    cat(&[&uleb(inner.len() as u64), &inner])
}

fn i32_const(v: i32) -> Vec<u8> {
    cat(&[&[0x41], &sleb(v as i64)])
}

fn i64_const(v: i64) -> Vec<u8> {
    cat(&[&[0x42], &sleb(v)])
}

/// The parts of a module, put together in the order of the sections.
struct Parts {
    types: Vec<Vec<u8>>,
    imports: Vec<Vec<u8>>,
    funcs: Vec<u32>,
    tables: Vec<Vec<u8>>,
    mems: Vec<Vec<u8>>,
    globals: Vec<Vec<u8>>,
    exports: Vec<Vec<u8>>,
    start: Option<u32>,
    elems: Vec<Vec<u8>>,
    codes: Vec<Vec<u8>>,
    datas: Vec<Vec<u8>>,
}

impl Parts {
    fn new() -> Parts {
        Parts {
            types: Vec::new(),
            imports: Vec::new(),
            funcs: Vec::new(),
            tables: Vec::new(),
            mems: Vec::new(),
            globals: Vec::new(),
            exports: Vec::new(),
            start: None,
            elems: Vec::new(),
            codes: Vec::new(),
            datas: Vec::new(),
        }
    }

    fn func(&mut self, params: &[u8], results: &[u8], locals: &[(u32, u8)], code: &[u8]) -> u32 {
        self.types.push(functype(params, results));
        self.funcs.push((self.types.len() - 1) as u32);
        self.codes.push(body(locals, code));
        (self.funcs.len() - 1) as u32
    }

    fn memory(&mut self, min: u32, max: Option<u32>) {
        self.mems.push(limits(min, max));
    }

    fn table(&mut self, min: u32, max: Option<u32>) {
        self.tables.push(cat(&[&[0x70], &limits(min, max)]));
    }

    fn global(&mut self, ty: u8, mutable: bool, init: &[u8]) {
        self.globals.push(cat(&[&[ty, mutable as u8], init, &[0x0b]]));
    }

    fn export(&mut self, name: &str, kind: u8, index: u32) {
        self.exports.push(cat(&[&uleb(name.len() as u64), name.as_bytes(), &[kind], &uleb(index as u64)]));
    }

    fn elem(&mut self, offset: i32, funcs: &[u32]) {
        let items: Vec<Vec<u8>> = funcs.iter().map(|f| uleb(*f as u64)).collect();
        self.elems.push(cat(&[&[0x00], &i32_const(offset), &[0x0b], &vector(&items)]));
    }

    fn data(&mut self, offset: i32, bytes: &[u8]) {
        self.datas.push(cat(&[&[0x00], &i32_const(offset), &[0x0b], &uleb(bytes.len() as u64), bytes]));
    }

    fn build(&self) -> Vec<u8> {
        let mut out = vec![0x00, 0x61, 0x73, 0x6d, 0x01, 0x00, 0x00, 0x00];
        let funcs: Vec<Vec<u8>> = self.funcs.iter().map(|t| uleb(*t as u64)).collect();
        let lists: [(u8, &Vec<Vec<u8>>); 10] = [
            (1, &self.types),
            (2, &self.imports),
            (3, &funcs),
            (4, &self.tables),
            (5, &self.mems),
            (6, &self.globals),
            (7, &self.exports),
            (9, &self.elems),
            (10, &self.codes),
            (11, &self.datas),
        ];
        for (id, items) in lists.iter() {
            if *id == 9 {
                if let Some(f) = self.start {
                    out.extend(section(8, &uleb(f as u64)));
                }
            }
            if !items.is_empty() {
                out.extend(section(*id, &vector(items)));
            }
        }
        out
    }
}

fn limits(min: u32, max: Option<u32>) -> Vec<u8> {
    match max {
        Some(m) => cat(&[&[0x01], &uleb(min as u64), &uleb(m as u64)]),
        None => cat(&[&[0x00], &uleb(min as u64)]),
    }
}

fn instance_of(parts: &Parts) -> Instance {
    let bytes = parts.build();
    let module = parse(&bytes).expect("the module is valid");
    module.instantiate().expect("the module can be instantiated")
}

/// Runs `op` on two operands of type `t`.
fn binop(op: u8, t: u8, r: u8, a: u64, b: u64) -> ExecutionResult {
    let mut p = Parts::new();
    p.func(&[t, t], &[r], &[], &[0x20, 0x00, 0x20, 0x01, op]);
    instance_of(&p).execute(0, &[Value::from(a), Value::from(b)])
}

/// Runs `op` on one operand of type `t`.
fn unop(op: u8, t: u8, r: u8, a: u64) -> ExecutionResult {
    let mut p = Parts::new();
    p.func(&[t], &[r], &[], &[0x20, 0x00, op]);
    instance_of(&p).execute(0, &[Value::from(a)])
}

fn i32_bin(op: u8, a: i32, b: i32) -> i32 {
    let r = binop(op, I32, I32, a as u32 as u64, b as u32 as u64);
    assert!(!r.trapped && r.has_value);
    assert_eq!(r.value.as_u64() >> 32, 0);
    r.value.as_i32()
}

fn i64_bin(op: u8, a: i64, b: i64) -> i64 {
    let r = binop(op, I64, I64, a as u64, b as u64);
    assert!(!r.trapped && r.has_value);
    r.value.as_i64()
}

#[test]
fn i32_arithmetic() {
    assert_eq!(i32_bin(0x6a, 7, 5), 12);
    assert_eq!(i32_bin(0x6a, i32::MAX, 1), i32::MIN);
    assert_eq!(i32_bin(0x6b, 5, 7), -2);
    assert_eq!(i32_bin(0x6c, 0x10000, 0x10000), 0);
    assert_eq!(i32_bin(0x6c, -3, 7), -21);
    assert_eq!(i32_bin(0x6d, -7, 2), -3);
    assert_eq!(i32_bin(0x6d, 7, -2), -3);
    assert_eq!(i32_bin(0x6d, -7, -2), 3);
    assert_eq!(i32_bin(0x6d, i32::MIN, 1), i32::MIN);
    assert_eq!(i32_bin(0x6d, i32::MIN, 2), -0x4000_0000);
    assert_eq!(i32_bin(0x6e, -7, 2), 0x7fff_fffc);
    assert_eq!(i32_bin(0x6f, -7, 2), -1);
    assert_eq!(i32_bin(0x6f, 7, -2), 1);
    assert_eq!(i32_bin(0x6f, i32::MIN, -1), 0);
    assert_eq!(i32_bin(0x70, -7, 2), 1);
    assert_eq!(i32_bin(0x71, 0b1100, 0b1010), 0b1000);
    assert_eq!(i32_bin(0x72, 0b1100, 0b1010), 0b1110);
    assert_eq!(i32_bin(0x73, 0b1100, 0b1010), 0b0110);
    assert_eq!(i32_bin(0x74, 1, 31), i32::MIN);
    assert_eq!(i32_bin(0x74, 1, 32), 1);
    assert_eq!(i32_bin(0x74, 3, 33), 6);
    assert_eq!(i32_bin(0x75, -8, 1), -4);
    assert_eq!(i32_bin(0x75, -1, 31), -1);
    assert_eq!(i32_bin(0x76, -8, 1), 0x7fff_fffc);
    assert_eq!(i32_bin(0x77, 0x4000_0001u32 as i32, 1), 0x8000_0002u32 as i32);
    assert_eq!(i32_bin(0x77, 0x1234_5678, 0), 0x1234_5678);
    assert_eq!(i32_bin(0x77, 0x1234_5678, 36), 0x2345_6781);
    assert_eq!(i32_bin(0x78, 0x1234_5678, 4), 0x8123_4567u32 as i32);
    assert_eq!(i32_bin(0x78, 1, 1), i32::MIN);
}

#[test]
fn i64_arithmetic() {
    assert_eq!(i64_bin(0x7c, i64::MAX, 1), i64::MIN);
    assert_eq!(i64_bin(0x7d, 0, 1), -1);
    assert_eq!(i64_bin(0x7e, 0x1_0000_0000, 0x1_0000_0000), 0);
    assert_eq!(i64_bin(0x7e, 1_000_000_007, 1_000_000_009), 1_000_000_016_000_000_063);
    assert_eq!(i64_bin(0x7f, -7, 2), -3);
    assert_eq!(i64_bin(0x7f, i64::MIN, 1), i64::MIN);
    assert_eq!(i64_bin(0x7f, i64::MIN, 2), i64::MIN / 2);
    assert_eq!(i64_bin(0x80, -7, 2), 0x7fff_ffff_ffff_fffc);
    assert_eq!(i64_bin(0x81, -7, 2), -1);
    assert_eq!(i64_bin(0x81, i64::MIN, -1), 0);
    assert_eq!(i64_bin(0x82, -7, 2), 1);
    assert_eq!(i64_bin(0x83, 12, 10), 8);
    assert_eq!(i64_bin(0x84, 12, 10), 14);
    assert_eq!(i64_bin(0x85, 12, 10), 6);
    assert_eq!(i64_bin(0x86, 1, 63), i64::MIN);
    assert_eq!(i64_bin(0x86, 1, 64), 1);
    assert_eq!(i64_bin(0x87, -8, 1), -4);
    assert_eq!(i64_bin(0x88, -8, 1), 0x7fff_ffff_ffff_fffc);
    assert_eq!(i64_bin(0x89, 0x4000_0000_0000_0001, 1), 0x8000_0000_0000_0002u64 as i64);
    assert_eq!(i64_bin(0x8a, 1, 1), i64::MIN);
    assert_eq!(i64_bin(0x8a, 0x1234, 0), 0x1234);
}

#[test]
fn integer_division_traps() {
    for op in [0x6d, 0x6e, 0x6f, 0x70] {
        let r = binop(op, I32, I32, 5, 0);
        assert!(r.trapped && !r.has_value);
        assert_eq!(r.trap, Some(Trap::DivisionByZero));
    }
    for op in [0x7f, 0x80, 0x81, 0x82] {
        let r = binop(op, I64, I64, 5, 0);
        assert!(r.trapped && !r.has_value);
        assert_eq!(r.trap, Some(Trap::DivisionByZero));
    }
    let r = binop(0x6d, I32, I32, 0x8000_0000, 0xffff_ffff);
    assert_eq!(r.trap, Some(Trap::IntegerOverflow));
    assert_eq!(Trap::IntegerOverflow.message(), "integer overflow");
    let r = binop(0x7f, I64, I64, 0x8000_0000_0000_0000, 0xffff_ffff_ffff_ffff);
    assert_eq!(r.trap, Some(Trap::IntegerOverflow));
    // Only the low half of a 32-bit operand counts.
    let r = binop(0x6d, I32, I32, 10, 0x1_0000_0000);
    assert_eq!(r.trap, Some(Trap::DivisionByZero));
}

#[test]
fn comparisons() {
    let ops32: [(u8, fn(i32, i32) -> bool); 10] = [
        (0x46, |a, b| a == b),
        (0x47, |a, b| a != b),
        (0x48, |a, b| a < b),
        (0x49, |a, b| (a as u32) < (b as u32)),
        (0x4a, |a, b| a > b),
        (0x4b, |a, b| (a as u32) > (b as u32)),
        (0x4c, |a, b| a <= b),
        (0x4d, |a, b| (a as u32) <= (b as u32)),
        (0x4e, |a, b| a >= b),
        (0x4f, |a, b| (a as u32) >= (b as u32)),
    ];
    let samples = [(-1, 1), (1, -1), (3, 3), (i32::MIN, i32::MAX), (0, 0), (2, 9)];
    for (op, f) in ops32.iter() {
        for (a, b) in samples.iter() {
            assert_eq!(i32_bin(*op, *a, *b), f(*a, *b) as i32, "opcode {:#x}", op);
        }
    }
    let ops64: [(u8, fn(i64, i64) -> bool); 10] = [
        (0x51, |a, b| a == b),
        (0x52, |a, b| a != b),
        (0x53, |a, b| a < b),
        (0x54, |a, b| (a as u64) < (b as u64)),
        (0x55, |a, b| a > b),
        (0x56, |a, b| (a as u64) > (b as u64)),
        (0x57, |a, b| a <= b),
        (0x58, |a, b| (a as u64) <= (b as u64)),
        (0x59, |a, b| a >= b),
        (0x5a, |a, b| (a as u64) >= (b as u64)),
    ];
    let wide = [(-1i64, 1i64), (1, -1), (3, 3), (i64::MIN, i64::MAX), (0x1_0000_0000, 1)];
    for (op, f) in ops64.iter() {
        for (a, b) in wide.iter() {
            let r = binop(*op, I64, I32, *a as u64, *b as u64);
            assert_eq!(r.value.as_u64(), f(*a, *b) as u64, "opcode {:#x}", op);
        }
    }
    assert_eq!(unop(0x45, I32, I32, 0).value.as_i32(), 1);
    assert_eq!(unop(0x45, I32, I32, 7).value.as_i32(), 0);
    assert_eq!(unop(0x50, I64, I32, 0).value.as_i32(), 1);
    assert_eq!(unop(0x50, I64, I32, 0x1_0000_0000).value.as_i32(), 0);
}

#[test]
fn bit_counts_and_conversions() {
    assert_eq!(unop(0x67, I32, I32, 1).value.as_u64(), 31);
    assert_eq!(unop(0x67, I32, I32, 0).value.as_u64(), 32);
    assert_eq!(unop(0x68, I32, I32, 8).value.as_u64(), 3);
    assert_eq!(unop(0x68, I32, I32, 0).value.as_u64(), 32);
    assert_eq!(unop(0x69, I32, I32, 0xf0f0_0001).value.as_u64(), 9);
    assert_eq!(unop(0x79, I64, I64, 1).value.as_u64(), 63);
    assert_eq!(unop(0x79, I64, I64, 0).value.as_u64(), 64);
    assert_eq!(unop(0x7a, I64, I64, 0x1_0000_0000).value.as_u64(), 32);
    assert_eq!(unop(0x7b, I64, I64, u64::MAX).value.as_u64(), 64);
    // i32.wrap_i64, i64.extend_i32_s, i64.extend_i32_u
    assert_eq!(unop(0xa7, I64, I32, 0x1234_5678_9abc_def0).value.as_u64(), 0x9abc_def0);
    assert_eq!(unop(0xac, I32, I64, 0xffff_fffe).value.as_i64(), -2);
    assert_eq!(unop(0xac, I32, I64, 0x7fff_ffff).value.as_i64(), 0x7fff_ffff);
    assert_eq!(unop(0xad, I32, I64, 0xffff_fffe).value.as_u64(), 0xffff_fffe);
}

fn call_i32(inst: &mut Instance, f: u32, args: &[i32]) -> ExecutionResult {
    let values: Vec<Value> = args.iter().map(|a| Value::from(*a)).collect();
    inst.execute(f, &values)
}

#[test]
fn loop_computes_factorial() {
    let mut p = Parts::new();
    p.func(
        &[I64],
        &[I64],
        &[(1, I64)],
        &[
            0x42, 0x01, 0x21, 0x01, 0x02, 0x40, 0x03, 0x40, 0x20, 0x00, 0x50, 0x0d, 0x01, 0x20,
            0x01, 0x20, 0x00, 0x7e, 0x21, 0x01, 0x20, 0x00, 0x42, 0x01, 0x7d, 0x21, 0x00, 0x0c,
            0x00, 0x0b, 0x0b, 0x20, 0x01,
        ],
    );
    let mut inst = instance_of(&p);
    assert_eq!(inst.execute(0, &[Value::from(0u64)]).value.as_u64(), 1);
    assert_eq!(inst.execute(0, &[Value::from(5u64)]).value.as_u64(), 120);
    assert_eq!(inst.execute(0, &[Value::from(20u64)]).value.as_u64(), 2432902008176640000);
}

#[test]
fn recursion_computes_fibonacci() {
    let mut p = Parts::new();
    p.func(
        &[I32],
        &[I32],
        &[],
        &[
            0x20, 0x00, 0x41, 0x02, 0x48, 0x04, 0x7f, 0x20, 0x00, 0x05, 0x20, 0x00, 0x41, 0x01,
            0x6b, 0x10, 0x00, 0x20, 0x00, 0x41, 0x02, 0x6b, 0x10, 0x00, 0x6a, 0x0b,
        ],
    );
    let mut inst = instance_of(&p);
    assert_eq!(call_i32(&mut inst, 0, &[0]).value.as_i32(), 0);
    assert_eq!(call_i32(&mut inst, 0, &[1]).value.as_i32(), 1);
    assert_eq!(call_i32(&mut inst, 0, &[10]).value.as_i32(), 55);
    assert_eq!(call_i32(&mut inst, 0, &[20]).value.as_i32(), 6765);
}

#[test]
fn if_without_else_is_skipped() {
    let mut p = Parts::new();
    p.func(&[I32], &[I32], &[(1, I32)], &[0x20, 0x00, 0x04, 0x40, 0x41, 0x07, 0x21, 0x01, 0x0b, 0x20, 0x01]);
    let mut inst = instance_of(&p);
    assert_eq!(call_i32(&mut inst, 0, &[0]).value.as_i32(), 0);
    assert_eq!(call_i32(&mut inst, 0, &[1]).value.as_i32(), 7);
    assert_eq!(call_i32(&mut inst, 0, &[-5]).value.as_i32(), 7);
}

#[test]
fn nested_if_else_finds_its_own_else() {
    let mut p = Parts::new();
    p.func(
        &[I32, I32],
        &[I32],
        &[],
        &[
            0x20, 0x00, 0x04, 0x7f, 0x20, 0x01, 0x04, 0x7f, 0x41, 0x01, 0x05, 0x41, 0x02, 0x0b,
            0x05, 0x41, 0x03, 0x0b,
        ],
    );
    let mut inst = instance_of(&p);
    assert_eq!(call_i32(&mut inst, 0, &[0, 0]).value.as_i32(), 3);
    assert_eq!(call_i32(&mut inst, 0, &[0, 1]).value.as_i32(), 3);
    assert_eq!(call_i32(&mut inst, 0, &[1, 1]).value.as_i32(), 1);
    assert_eq!(call_i32(&mut inst, 0, &[1, 0]).value.as_i32(), 2);
}

#[test]
fn branch_table_selects_a_label() {
    let mut p = Parts::new();
    p.func(
        &[I32],
        &[I32],
        &[],
        &[
            0x02, 0x40, 0x02, 0x40, 0x02, 0x40, 0x20, 0x00, 0x0e, 0x02, 0x00, 0x01, 0x02, 0x0b,
            0x41, 0x0a, 0x0f, 0x0b, 0x41, 0x14, 0x0f, 0x0b, 0x41, 0x1e,
        ],
    );
    let mut inst = instance_of(&p);
    assert_eq!(call_i32(&mut inst, 0, &[0]).value.as_i32(), 10);
    assert_eq!(call_i32(&mut inst, 0, &[1]).value.as_i32(), 20);
    assert_eq!(call_i32(&mut inst, 0, &[2]).value.as_i32(), 30);
    assert_eq!(call_i32(&mut inst, 0, &[100]).value.as_i32(), 30);
    assert_eq!(call_i32(&mut inst, 0, &[-1]).value.as_i32(), 30);
}

#[test]
fn branch_carries_the_top_value() {
    let mut p = Parts::new();
    p.func(&[], &[I32], &[], &[0x02, 0x7f, 0x41, 0x05, 0x41, 0x09, 0x0c, 0x00, 0x0b]);
    let mut inst = instance_of(&p);
    let r = inst.execute(0, &[]);
    assert!(r.has_value);
    assert_eq!(r.value.as_i32(), 9);
}

#[test]
fn loop_sums_with_conditional_branch() {
    let mut p = Parts::new();
    p.func(
        &[I32],
        &[I32],
        &[(1, I32)],
        &[
            0x03, 0x40, 0x20, 0x00, 0x20, 0x01, 0x6a, 0x21, 0x01, 0x20, 0x00, 0x41, 0x01, 0x6b,
            0x22, 0x00, 0x0d, 0x00, 0x0b, 0x20, 0x01,
        ],
    );
    let mut inst = instance_of(&p);
    assert_eq!(call_i32(&mut inst, 0, &[1]).value.as_i32(), 1);
    assert_eq!(call_i32(&mut inst, 0, &[100]).value.as_i32(), 5050);
}

#[test]
fn select_and_drop() {
    let mut p = Parts::new();
    p.func(&[I32, I32, I32], &[I32], &[], &[0x20, 0x00, 0x20, 0x01, 0x20, 0x02, 0x1b]);
    p.func(&[I32, I32], &[I32], &[], &[0x20, 0x00, 0x20, 0x01, 0x1a, 0x01]);
    let mut inst = instance_of(&p);
    assert_eq!(call_i32(&mut inst, 0, &[11, 22, 1]).value.as_i32(), 11);
    assert_eq!(call_i32(&mut inst, 0, &[11, 22, 0]).value.as_i32(), 22);
    assert_eq!(call_i32(&mut inst, 0, &[11, 22, -1]).value.as_i32(), 11);
    assert_eq!(call_i32(&mut inst, 1, &[11, 22]).value.as_i32(), 11);
}

fn memory_module() -> Parts {
    let mut p = Parts::new();
    p.memory(1, Some(2));
    // 0: i32.store, 1: i32.load, 2: i32.load8_u, 3: i32.load8_s, 4: i32.load16_s,
    // 5: i32.load16_u, 6: i64.load, 7: i64.load32_s, 8: i64.store, 9: i32.store8,
    // 10: i32.store16, 11: i32.load offset=4, 12: memory.size, 13: memory.grow,
    // 14: i64.load8_s, 15: i64.store32, 16: i64.load32_u, 17: store then trap
    p.func(&[I32, I32], &[], &[], &[0x20, 0x00, 0x20, 0x01, 0x36, 0x02, 0x00]);
    p.func(&[I32], &[I32], &[], &[0x20, 0x00, 0x28, 0x02, 0x00]);
    p.func(&[I32], &[I32], &[], &[0x20, 0x00, 0x2d, 0x00, 0x00]);
    p.func(&[I32], &[I32], &[], &[0x20, 0x00, 0x2c, 0x00, 0x00]);
    p.func(&[I32], &[I32], &[], &[0x20, 0x00, 0x2e, 0x01, 0x00]);
    p.func(&[I32], &[I32], &[], &[0x20, 0x00, 0x2f, 0x01, 0x00]);
    p.func(&[I32], &[I64], &[], &[0x20, 0x00, 0x29, 0x03, 0x00]);
    p.func(&[I32], &[I64], &[], &[0x20, 0x00, 0x34, 0x02, 0x00]);
    p.func(&[I32, I64], &[], &[], &[0x20, 0x00, 0x20, 0x01, 0x37, 0x03, 0x00]);
    p.func(&[I32, I32], &[], &[], &[0x20, 0x00, 0x20, 0x01, 0x3a, 0x00, 0x00]);
    p.func(&[I32, I32], &[], &[], &[0x20, 0x00, 0x20, 0x01, 0x3b, 0x01, 0x00]);
    p.func(&[I32], &[I32], &[], &[0x20, 0x00, 0x28, 0x02, 0x04]);
    p.func(&[], &[I32], &[], &[0x3f, 0x00]);
    p.func(&[I32], &[I32], &[], &[0x20, 0x00, 0x40, 0x00]);
    p.func(&[I32], &[I64], &[], &[0x20, 0x00, 0x30, 0x00, 0x00]);
    p.func(&[I32, I64], &[], &[], &[0x20, 0x00, 0x20, 0x01, 0x3e, 0x02, 0x00]);
    p.func(&[I32], &[I64], &[], &[0x20, 0x00, 0x35, 0x02, 0x00]);
    p.func(&[], &[], &[], &[0x41, 0x10, 0x41, 0xd5, 0x00, 0x3a, 0x00, 0x00, 0x00]);
    p.data(0, &[0x78, 0x56, 0x34, 0x12, 0xff, 0x80, 0xfe, 0xff]);
    p
}

#[test]
fn loads_read_little_endian_and_extend() {
    let mut inst = instance_of(&memory_module());
    assert_eq!(call_i32(&mut inst, 1, &[0]).value.as_u64(), 0x1234_5678);
    assert_eq!(call_i32(&mut inst, 1, &[4]).value.as_u64(), 0xfffe_80ff);
    assert_eq!(call_i32(&mut inst, 2, &[4]).value.as_u64(), 0xff);
    assert_eq!(call_i32(&mut inst, 3, &[4]).value.as_u64(), 0xffff_ffff);
    assert_eq!(call_i32(&mut inst, 3, &[0]).value.as_u64(), 0x78);
    assert_eq!(call_i32(&mut inst, 4, &[4]).value.as_u64(), 0xffff_80ff);
    assert_eq!(call_i32(&mut inst, 4, &[4]).value.as_i32(), -32513);
    assert_eq!(call_i32(&mut inst, 5, &[6]).value.as_u64(), 0xfffe);
    assert_eq!(call_i32(&mut inst, 6, &[0]).value.as_u64(), 0xfffe_80ff_1234_5678);
    assert_eq!(call_i32(&mut inst, 7, &[4]).value.as_u64(), 0xffff_ffff_fffe_80ff);
    assert_eq!(call_i32(&mut inst, 7, &[0]).value.as_u64(), 0x1234_5678);
    assert_eq!(call_i32(&mut inst, 16, &[4]).value.as_u64(), 0xfffe_80ff);
    assert_eq!(call_i32(&mut inst, 14, &[5]).value.as_i64(), -128);
    assert_eq!(call_i32(&mut inst, 11, &[0]).value.as_u64(), 0xfffe_80ff);
}

#[test]
fn stores_write_the_low_bytes() {
    let mut inst = instance_of(&memory_module());
    assert!(!call_i32(&mut inst, 0, &[100, 0x0a0b0c0d]).trapped);
    assert_eq!(call_i32(&mut inst, 2, &[100]).value.as_u64(), 0x0d);
    assert_eq!(call_i32(&mut inst, 2, &[103]).value.as_u64(), 0x0a);
    assert!(!call_i32(&mut inst, 9, &[101, 0x1ff]).trapped);
    assert_eq!(call_i32(&mut inst, 1, &[100]).value.as_u64(), 0x0a0b_ff0d);
    assert!(!call_i32(&mut inst, 10, &[102, 0x12345]).trapped);
    assert_eq!(call_i32(&mut inst, 1, &[100]).value.as_u64(), 0x2345_ff0d);
    let r = inst.execute(8, &[Value::from(200i32), Value::from(0x0102_0304_0506_0708u64)]);
    assert!(!r.trapped && !r.has_value);
    assert_eq!(call_i32(&mut inst, 6, &[200]).value.as_u64(), 0x0102_0304_0506_0708);
    assert_eq!(call_i32(&mut inst, 2, &[200]).value.as_u64(), 0x08);
    let r = inst.execute(15, &[Value::from(204i32), Value::from(0xaabb_ccdd_eeff_0011u64)]);
    assert!(!r.trapped);
    assert_eq!(call_i32(&mut inst, 6, &[200]).value.as_u64(), 0xeeff_0011_0506_0708);
}

#[test]
fn memory_access_out_of_bounds_traps() {
    let mut inst = instance_of(&memory_module());
    assert_eq!(call_i32(&mut inst, 1, &[65532]).value.as_u64(), 0);
    let r = call_i32(&mut inst, 1, &[65533]);
    assert!(r.trapped && !r.has_value);
    assert_eq!(r.trap, Some(Trap::MemoryOutOfBounds));
    assert_eq!(call_i32(&mut inst, 1, &[-1]).trap, Some(Trap::MemoryOutOfBounds));
    // The offset is added without wrapping.
    assert_eq!(call_i32(&mut inst, 11, &[-4]).trap, Some(Trap::MemoryOutOfBounds));
    assert_eq!(call_i32(&mut inst, 11, &[65528]).value.as_u64(), 0);
    assert_eq!(call_i32(&mut inst, 11, &[65529]).trap, Some(Trap::MemoryOutOfBounds));
    // A store that does not fit writes nothing.
    assert_eq!(call_i32(&mut inst, 0, &[65533, -1]).trap, Some(Trap::MemoryOutOfBounds));
    assert_eq!(call_i32(&mut inst, 2, &[65533]).value.as_u64(), 0);
    assert_eq!(call_i32(&mut inst, 2, &[65535]).value.as_u64(), 0);
    assert_eq!(call_i32(&mut inst, 6, &[65529]).trap, Some(Trap::MemoryOutOfBounds));
}

#[test]
fn memory_grows_within_its_limit() {
    let mut inst = instance_of(&memory_module());
    assert_eq!(inst.memory_size(), 65536);
    assert_eq!(inst.execute(12, &[]).value.as_i32(), 1);
    assert_eq!(call_i32(&mut inst, 13, &[0]).value.as_i32(), 1);
    assert_eq!(call_i32(&mut inst, 13, &[2]).value.as_i32(), -1);
    assert_eq!(call_i32(&mut inst, 13, &[2]).value.as_u64(), 0xffff_ffff);
    assert_eq!(inst.execute(12, &[]).value.as_i32(), 1);
    assert_eq!(call_i32(&mut inst, 1, &[65536]).trap, Some(Trap::MemoryOutOfBounds));
    assert_eq!(call_i32(&mut inst, 13, &[1]).value.as_i32(), 1);
    assert_eq!(inst.execute(12, &[]).value.as_i32(), 2);
    assert_eq!(inst.memory_size(), 131072);
    assert_eq!(call_i32(&mut inst, 1, &[65536]).value.as_i32(), 0);
    assert_eq!(call_i32(&mut inst, 1, &[0]).value.as_u64(), 0x1234_5678);
    assert_eq!(call_i32(&mut inst, 13, &[1]).value.as_i32(), -1);
    assert_eq!(call_i32(&mut inst, 13, &[0]).value.as_i32(), 2);
}

#[test]
fn trap_keeps_what_was_written_before() {
    let mut inst = instance_of(&memory_module());
    assert_eq!(call_i32(&mut inst, 2, &[16]).value.as_u64(), 0);
    let r = inst.execute(17, &[]);
    assert_eq!(r.trap, Some(Trap::Unreachable));
    assert_eq!(call_i32(&mut inst, 2, &[16]).value.as_u64(), 0x55);
}

#[test]
fn globals_keep_their_values_between_calls() {
    let mut p = Parts::new();
    p.global(I32, true, &i32_const(5));
    p.global(I64, false, &i64_const(-3));
    p.func(&[], &[I32], &[], &[0x23, 0x00, 0x41, 0x01, 0x6a, 0x24, 0x00, 0x23, 0x00]);
    p.func(&[], &[I64], &[], &[0x23, 0x01]);
    let mut inst = instance_of(&p);
    assert_eq!(inst.execute(0, &[]).value.as_i32(), 6);
    assert_eq!(inst.execute(0, &[]).value.as_i32(), 7);
    assert_eq!(inst.execute(0, &[]).value.as_i32(), 8);
    assert_eq!(inst.execute(1, &[]).value.as_i64(), -3);
}

fn table_module() -> Parts {
    let mut p = Parts::new();
    p.table(4, None);
    p.func(&[], &[I32], &[], &[0x41, 0x0b]);
    p.func(&[], &[I32], &[], &[0x41, 0x16]);
    p.func(&[I32], &[I32], &[], &[0x20, 0x00, 0x41, 0x01, 0x6a]);
    p.func(&[I32], &[I32], &[], &[0x20, 0x00, 0x11, 0x00, 0x00]);
    p.func(&[I32, I32], &[I32], &[], &[0x20, 0x00, 0x20, 0x01, 0x11, 0x02, 0x00]);
    p.elem(0, &[0, 1, 2]);
    p
}

#[test]
fn indirect_call_dispatches_through_the_table() {
    let mut inst = instance_of(&table_module());
    assert_eq!(call_i32(&mut inst, 3, &[0]).value.as_i32(), 11);
    assert_eq!(call_i32(&mut inst, 3, &[1]).value.as_i32(), 22);
    assert_eq!(call_i32(&mut inst, 4, &[41, 2]).value.as_i32(), 42);
}

#[test]
fn indirect_call_through_null_slot_traps() {
    let mut inst = instance_of(&table_module());
    let r = call_i32(&mut inst, 3, &[3]);
    assert!(r.trapped && !r.has_value);
    assert_eq!(r.trap, Some(Trap::NullFunctionReference));
    assert_eq!(r.trap.unwrap().message(), "null function reference");
    // The instance is intact.
    assert_eq!(call_i32(&mut inst, 3, &[1]).value.as_i32(), 22);
}

#[test]
fn indirect_call_checks_index_and_signature() {
    let mut inst = instance_of(&table_module());
    let r = call_i32(&mut inst, 3, &[4]);
    assert_eq!(r.trap, Some(Trap::UndefinedElement));
    assert_eq!(call_i32(&mut inst, 3, &[-1]).trap, Some(Trap::UndefinedElement));
    let r = call_i32(&mut inst, 3, &[2]);
    assert_eq!(r.trap, Some(Trap::SignatureMismatch));
    assert_eq!(r.trap.unwrap().message(), "indirect call type mismatch");
    assert_eq!(call_i32(&mut inst, 4, &[41, 0]).trap, Some(Trap::SignatureMismatch));
}

#[test]
fn call_depth_is_limited() {
    let mut p = Parts::new();
    p.func(&[], &[], &[], &[0x10, 0x00]);
    p.func(
        &[I32],
        &[I32],
        &[],
        &[
            0x20, 0x00, 0x45, 0x04, 0x7f, 0x41, 0x00, 0x05, 0x20, 0x00, 0x41, 0x01, 0x6b, 0x10,
            0x01, 0x41, 0x01, 0x6a, 0x0b,
        ],
    );
    let mut inst = instance_of(&p);
    let r = inst.execute(0, &[]);
    assert!(r.trapped);
    assert_eq!(r.trap, Some(Trap::CallStackExhausted));
    assert_eq!(call_i32(&mut inst, 1, &[1000]).value.as_i32(), 1000);
    assert_eq!(call_i32(&mut inst, 1, &[2047]).value.as_i32(), 2047);
    assert_eq!(call_i32(&mut inst, 1, &[2048]).trap, Some(Trap::CallStackExhausted));
}

#[test]
fn locals_start_at_zero_after_the_arguments() {
    let mut p = Parts::new();
    p.func(
        &[I32],
        &[I64],
        &[(2, I32), (1, I64)],
        &[0x20, 0x03, 0x20, 0x01, 0xad, 0x7c, 0x20, 0x02, 0xad, 0x7c, 0x20, 0x00, 0xad, 0x7c],
    );
    let mut inst = instance_of(&p);
    assert_eq!(call_i32(&mut inst, 0, &[9]).value.as_u64(), 9);
}

#[test]
fn start_function_runs_at_instantiation() {
    let mut p = Parts::new();
    p.global(I32, true, &i32_const(0));
    p.func(&[], &[], &[], &[0x41, 0x2a, 0x24, 0x00]);
    p.func(&[], &[I32], &[], &[0x23, 0x00]);
    p.start = Some(0);
    let mut inst = instance_of(&p);
    assert_eq!(inst.execute(1, &[]).value.as_i32(), 42);
}

#[test]
fn trap_in_start_function_fails_instantiation() {
    let mut p = Parts::new();
    p.func(&[], &[], &[], &[0x00]);
    p.start = Some(0);
    let bytes = p.build();
    assert!(validate(&bytes));
    assert!(parse(&bytes).unwrap().instantiate().is_none());
}

#[test]
fn segment_out_of_bounds_fails_instantiation() {
    let mut p = Parts::new();
    p.memory(1, None);
    p.data(65535, &[1, 2]);
    let bytes = p.build();
    assert!(validate(&bytes));
    assert!(parse(&bytes).unwrap().instantiate().is_none());
    let mut p = Parts::new();
    p.memory(1, None);
    p.data(65534, &[1, 2]);
    assert!(parse(&p.build()).unwrap().instantiate().is_some());
    let mut p = Parts::new();
    p.table(1, None);
    p.func(&[], &[], &[], &[]);
    p.elem(1, &[0]);
    let bytes = p.build();
    assert!(validate(&bytes));
    assert!(parse(&bytes).unwrap().instantiate().is_none());
}

#[test]
fn module_with_imports_is_valid_but_not_instantiated() {
    let mut p = Parts::new();
    p.types.push(functype(&[], &[]));
    p.imports.push(vec![0x03, b'e', b'n', b'v', 0x01, b'f', 0x00, 0x00]);
    let bytes = p.build();
    assert!(validate(&bytes));
    let module = parse(&bytes).unwrap();
    assert!(module.instantiate().is_none());
}

#[test]
fn memory_above_the_page_limit_is_not_instantiated() {
    let mut p = Parts::new();
    p.memory(4097, None);
    let bytes = p.build();
    assert!(validate(&bytes));
    assert!(parse(&bytes).unwrap().instantiate().is_none());
    let mut p = Parts::new();
    p.memory(2, None);
    let inst = parse(&p.build()).unwrap().instantiate().unwrap();
    assert_eq!(inst.memory_size(), 2 * 65536);
}

fn float_module() -> Parts {
    let mut p = Parts::new();
    // 0: f32.add, 1: a * b + a on f64, 2: i32.trunc_f32_s, 3: f32.neg, 4: f64.abs,
    // 5: f32.copysign, 6: i32.reinterpret_f32, 7: f32.const 1.5, 8: f64.const with a payload,
    // 9: f32.lt, 10: f64.sqrt, 11: f32.sqrt
    p.func(&[F32, F32], &[F32], &[], &[0x20, 0x00, 0x20, 0x01, 0x92]);
    p.func(&[F64, F64], &[F64], &[], &[0x20, 0x00, 0x20, 0x01, 0xa2, 0x20, 0x00, 0xa0]);
    p.func(&[F32], &[I32], &[], &[0x20, 0x00, 0xa8]);
    p.func(&[F32], &[F32], &[], &[0x20, 0x00, 0x8c]);
    p.func(&[F64], &[F64], &[], &[0x20, 0x00, 0x99]);
    p.func(&[F32, F32], &[F32], &[], &[0x20, 0x00, 0x20, 0x01, 0x98]);
    p.func(&[F32], &[I32], &[], &[0x20, 0x00, 0xbc]);
    p.func(&[], &[F32], &[], &[0x43, 0x00, 0x00, 0xc0, 0x3f]);
    p.func(&[], &[F64], &[], &[0x44, 0x23, 0x01, 0x00, 0x00, 0x00, 0x00, 0xf8, 0x7f]);
    p.func(&[F32, F32], &[I32], &[], &[0x20, 0x00, 0x20, 0x01, 0x5d]);
    p.func(&[F64], &[F64], &[], &[0x20, 0x00, 0x9f]);
    p.func(&[F32], &[F32], &[], &[0x20, 0x00, 0x91]);
    p
}

fn f32_value(v: f32) -> Value {
    Value::from(v.to_bits())
}

fn f64_value(v: f64) -> Value {
    Value::from(v.to_bits())
}

#[test]
fn float_bits_pass_through_unchanged() {
    let mut inst = instance_of(&float_module());
    assert_eq!(inst.execute(7, &[]).value.as_u64(), 0x3fc0_0000);
    assert_eq!(f32::from_bits(inst.execute(7, &[]).value.as_u32()), 1.5);
    assert_eq!(inst.execute(8, &[]).value.as_u64(), 0x7ff8_0000_0000_0123);
    assert_eq!(inst.execute(6, &[f32_value(-0.0)]).value.as_u64(), 0x8000_0000);
    let nan = Value::from(0x7fc0_1234u32);
    assert_eq!(inst.execute(6, &[nan]).value.as_u64(), 0x7fc0_1234);
}

#[test]
fn float_sign_operations_work_on_bits() {
    let mut inst = instance_of(&float_module());
    assert_eq!(f32::from_bits(inst.execute(3, &[f32_value(1.5)]).value.as_u32()), -1.5);
    assert_eq!(inst.execute(3, &[Value::from(0x7fc0_0001u32)]).value.as_u64(), 0xffc0_0001);
    assert_eq!(f64::from_bits(inst.execute(4, &[f64_value(-2.25)]).value.as_u64()), 2.25);
    assert_eq!(inst.execute(4, &[f64_value(-0.0)]).value.as_u64(), 0);
    let r = inst.execute(5, &[f32_value(3.0), f32_value(-0.0)]);
    assert_eq!(f32::from_bits(r.value.as_u32()), -3.0);
    let r = inst.execute(5, &[f32_value(-3.0), f32_value(7.0)]);
    assert_eq!(f32::from_bits(r.value.as_u32()), 3.0);
}

fn f32_samples() -> Vec<f32> {
    let mut v = vec![
        0.0, -0.0, 1.0, -1.0, 0.5, -0.5, 0.999_999_9, 1.5, -1.5, 2.5, 7.9, -7.9, 255.0, 256.5,
        65535.9, 2147483520.0, 2147483648.0, -2147483648.0, -2147483904.0, 4294967040.0,
        4294967296.0, 9223371487098961920.0, 9223372036854775808.0, -9223372036854775808.0,
        -9223373136366403584.0, 18446742974197923840.0, 18446744073709551616.0, 1.0e30, -1.0e30,
        f32::MAX, f32::MIN, f32::MIN_POSITIVE, f32::EPSILON, f32::INFINITY, f32::NEG_INFINITY,
        f32::NAN,
    ];
    v.push(f32::from_bits(1));
    v.push(f32::from_bits(0x8000_0001));
    v.push(f32::from_bits(0x007f_ffff));
    v.push(f32::from_bits(0x7fc0_1234));
    v.push(f32::from_bits(0xff80_0001));
    v
}

fn f64_samples() -> Vec<f64> {
    let mut v = vec![
        0.0, -0.0, 1.0, -1.0, 0.5, -0.5, 0.999_999_999_999, 1.5, -1.5, 2.5, 7.9, -7.9,
        2147483647.0, 2147483647.9, 2147483648.0, -2147483648.0, -2147483648.9, -2147483649.0,
        4294967295.0, 4294967295.9, 4294967296.0, -0.9, -1.0, 9007199254740993.0,
        9223372036854774784.0, 9223372036854775808.0, -9223372036854775808.0,
        -9223372036854777856.0, 18446744073709549568.0, 18446744073709551616.0, 1.0e300, -1.0e300,
        f64::MAX, f64::MIN, f64::MIN_POSITIVE, f64::EPSILON, f64::INFINITY, f64::NEG_INFINITY,
        f64::NAN,
    ];
    v.push(f64::from_bits(1));
    v.push(f64::from_bits(0x8000_0000_0000_0001));
    v.push(f64::from_bits(0x000f_ffff_ffff_ffff));
    v.push(f64::from_bits(0x7ff8_0000_0000_1234));
    v.push(f64::from_bits(0xfff0_0000_0000_0001));
    v
}

#[test]
fn float_comparisons_agree_with_the_hardware() {
    let ops32: [(u8, fn(f32, f32) -> bool); 6] = [
        (0x5b, |a, b| a == b),
        (0x5c, |a, b| a != b),
        (0x5d, |a, b| a < b),
        (0x5e, |a, b| a > b),
        (0x5f, |a, b| a <= b),
        (0x60, |a, b| a >= b),
    ];
    for (op, f) in ops32.iter() {
        let mut p = Parts::new();
        p.func(&[F32, F32], &[I32], &[], &[0x20, 0x00, 0x20, 0x01, *op]);
        let mut inst = instance_of(&p);
        for a in f32_samples() {
            for b in f32_samples() {
                let r = inst.execute(0, &[f32_value(a), f32_value(b)]);
                assert!(!r.trapped);
                assert_eq!(r.value.as_u64(), f(a, b) as u64, "{:#x} {} {}", op, a, b);
            }
        }
    }
    let ops64: [(u8, fn(f64, f64) -> bool); 6] = [
        (0x61, |a, b| a == b),
        (0x62, |a, b| a != b),
        (0x63, |a, b| a < b),
        (0x64, |a, b| a > b),
        (0x65, |a, b| a <= b),
        (0x66, |a, b| a >= b),
    ];
    for (op, f) in ops64.iter() {
        let mut p = Parts::new();
        p.func(&[F64, F64], &[I32], &[], &[0x20, 0x00, 0x20, 0x01, *op]);
        let mut inst = instance_of(&p);
        for a in f64_samples() {
            for b in f64_samples() {
                let r = inst.execute(0, &[f64_value(a), f64_value(b)]);
                assert!(!r.trapped);
                assert_eq!(r.value.as_u64(), f(a, b) as u64, "{:#x} {} {}", op, a, b);
            }
        }
    }
}

#[test]
fn float_minimum_and_maximum() {
    let mut p = Parts::new();
    p.func(&[F32, F32], &[F32], &[], &[0x20, 0x00, 0x20, 0x01, 0x96]);
    p.func(&[F32, F32], &[F32], &[], &[0x20, 0x00, 0x20, 0x01, 0x97]);
    p.func(&[F64, F64], &[F64], &[], &[0x20, 0x00, 0x20, 0x01, 0xa4]);
    p.func(&[F64, F64], &[F64], &[], &[0x20, 0x00, 0x20, 0x01, 0xa5]);
    let mut inst = instance_of(&p);
    for a in f32_samples() {
        for b in f32_samples() {
            let least = inst.execute(0, &[f32_value(a), f32_value(b)]).value.as_u32();
            let most = inst.execute(1, &[f32_value(a), f32_value(b)]).value.as_u32();
            if a.is_nan() || b.is_nan() {
                assert_eq!(least, 0x7fc0_0000);
                assert_eq!(most, 0x7fc0_0000);
            } else if a == 0.0 && b == 0.0 {
                assert_eq!(least, a.to_bits() | b.to_bits());
                assert_eq!(most, a.to_bits() & b.to_bits());
            } else {
                assert_eq!(least, a.min(b).to_bits());
                assert_eq!(most, a.max(b).to_bits());
            }
        }
    }
    for a in f64_samples() {
        for b in f64_samples() {
            let least = inst.execute(2, &[f64_value(a), f64_value(b)]).value.as_u64();
            let most = inst.execute(3, &[f64_value(a), f64_value(b)]).value.as_u64();
            if a.is_nan() || b.is_nan() {
                assert_eq!(least, 0x7ff8_0000_0000_0000);
                assert_eq!(most, 0x7ff8_0000_0000_0000);
            } else if a == 0.0 && b == 0.0 {
                assert_eq!(least, a.to_bits() | b.to_bits());
                assert_eq!(most, a.to_bits() & b.to_bits());
            } else {
                assert_eq!(least, a.min(b).to_bits());
                assert_eq!(most, a.max(b).to_bits());
            }
        }
    }
    assert_eq!(inst.execute(0, &[f32_value(0.0), f32_value(-0.0)]).value.as_u32(), 0x8000_0000);
    assert_eq!(inst.execute(1, &[f32_value(-0.0), f32_value(0.0)]).value.as_u32(), 0);
}

/// What a truncation gives: the bits of the integer, or `None` for a trap.
fn truncation(op: u8, from: u8, to: u8, bits: u64) -> Option<u64> {
    let r = unop(op, from, to, bits);
    if r.trapped {
        assert_eq!(r.trap, Some(Trap::InvalidConversion));
        assert!(!r.has_value);
        None
    } else {
        assert!(r.has_value);
        Some(r.value.as_u64())
    }
}

fn expected_truncation(x: f64, low: f64, high: f64) -> Option<f64> {
    let t = x.trunc();
    if t >= low && t < high {
        Some(t)
    } else {
        None
    }
}

#[test]
fn float_truncations_agree_with_the_hardware() {
    let two31 = 2147483648.0f64;
    let two32 = 4294967296.0f64;
    let two63 = 9223372036854775808.0f64;
    let two64 = 18446744073709551616.0f64;
    for a in f32_samples() {
        let x = a as f64;
        let bits = a.to_bits() as u64;
        assert_eq!(truncation(0xa8, F32, I32, bits), expected_truncation(x, -two31, two31).map(|t| t as i32 as u32 as u64), "{}", a);
        assert_eq!(truncation(0xa9, F32, I32, bits), expected_truncation(x, 0.0, two32).map(|t| t as u32 as u64), "{}", a);
        assert_eq!(truncation(0xae, F32, I64, bits), expected_truncation(x, -two63, two63).map(|t| t as i64 as u64), "{}", a);
        assert_eq!(truncation(0xaf, F32, I64, bits), expected_truncation(x, 0.0, two64).map(|t| t as u64), "{}", a);
    }
    for x in f64_samples() {
        let bits = x.to_bits();
        assert_eq!(truncation(0xaa, F64, I32, bits), expected_truncation(x, -two31, two31).map(|t| t as i32 as u32 as u64), "{}", x);
        assert_eq!(truncation(0xab, F64, I32, bits), expected_truncation(x, 0.0, two32).map(|t| t as u32 as u64), "{}", x);
        assert_eq!(truncation(0xb0, F64, I64, bits), expected_truncation(x, -two63, two63).map(|t| t as i64 as u64), "{}", x);
        assert_eq!(truncation(0xb1, F64, I64, bits), expected_truncation(x, 0.0, two64).map(|t| t as u64), "{}", x);
    }
    assert_eq!(truncation(0xaa, F64, I32, (-2147483648.9f64).to_bits()), Some(0x8000_0000));
    assert_eq!(truncation(0xaa, F64, I32, (-2147483649.0f64).to_bits()), None);
    assert_eq!(truncation(0xab, F64, I32, (-0.9f64).to_bits()), Some(0));
    assert_eq!(truncation(0xab, F64, I32, (-1.0f64).to_bits()), None);
    assert_eq!(truncation(0xb0, F64, I64, (-7.9f64).to_bits()), Some(-7i64 as u64));
    assert_eq!(truncation(0xa8, F32, I32, f32::NAN.to_bits() as u64), None);
}

#[test]
fn step_budget_ends_a_call_that_does_not_end() {
    let mut p = Parts::new();
    p.func(&[], &[], &[], &[0x03, 0x40, 0x0c, 0x00, 0x0b]);
    p.func(&[], &[I32], &[], &[0x41, 0x2a]);
    let mut inst = instance_of(&p);
    let r = inst.execute_within(0, &[], 1000);
    assert!(r.trapped && !r.has_value);
    assert_eq!(r.trap, Some(Trap::StepLimit));
    assert_eq!(Trap::StepLimit.message(), "step limit reached");
    // The constant, the end of the body and the return are one step each.
    assert_eq!(inst.execute_within(1, &[], 2).trap, Some(Trap::StepLimit));
    assert_eq!(inst.execute_within(1, &[], 0).trap, Some(Trap::StepLimit));
    let r = inst.execute_within(1, &[], 3);
    assert!(!r.trapped);
    assert_eq!(r.value.as_i32(), 42);
    assert_eq!(inst.execute(1, &[]), r);
}

#[test]
fn valid_modules_never_run_into_invalid_code() {
    let modules = [memory_module(), table_module(), float_module()];
    let samples = [0u64, 1, 2, 3, 4, 100, 65535, 65536, 0x7fff_ffff, 0xffff_ffff, u64::MAX];
    for parts in modules.iter() {
        let bytes = parts.build();
        assert!(validate(&bytes));
        let mut inst = parse(&bytes).unwrap().instantiate().unwrap();
        let count = inst.module().function_count() as u32;
        for f in 0..count {
            let arity = (0..4).find(|n| inst.module().accepts(f, *n)).unwrap();
            for a in samples.iter() {
                let args: Vec<Value> = (0..arity).map(|k| Value::from(a.rotate_left(k as u32))).collect();
                let r = inst.execute_within(f, &args, 10_000);
                assert_ne!(r.trap, Some(Trap::InvalidCode));
                assert_eq!(r.trapped, r.trap.is_some());
                assert!(!(r.trapped && r.has_value));
            }
        }
    }
}

/// A sequence of bit patterns that is the same in every run.
fn patterns(count: usize) -> Vec<u64> {
    let mut state: u64 = 0x9e37_79b9_7f4a_7c15;
    let mut out = Vec::new();
    for _ in 0..count {
        state ^= state << 13;
        state ^= state >> 7;
        state ^= state << 17;
        out.push(state);
    }
    out
}

fn i64_samples() -> Vec<u64> {
    let mut v: Vec<u64> = vec![
        0, 1, 2, 3, 0x7fff_ffff, 0x8000_0000, 0xffff_ffff, 0x1_0000_0000, 0x00ff_ffff, 0x0100_0000,
        0x0100_0001, 0x0100_0002, 0x0100_0003, 0x01ff_ffff, 0x0200_0001, 0x001f_ffff_ffff_ffff,
        0x0020_0000_0000_0000, 0x0020_0000_0000_0001, 0x0020_0000_0000_0002,
        0x0020_0000_0000_0003, 0x0040_0000_0000_0001, 0x7fff_ffff_ffff_ffff,
        0x8000_0000_0000_0000, 0x8000_0000_0000_0001, 0xffff_ffff_ffff_ffff,
        0x7fff_ffff_ffff_fc00, 0x7fff_ffff_ffff_fdff, 0x7fff_ffff_ffff_fe00,
        0xffff_ffff_ffff_f800, 0xffff_ffff_ffff_fbff, 0xffff_ffff_ffff_fc00, 0xffff_ff7f_ffff_ffff,
        0xffff_ff80_0000_0000,
    ];
    for k in 0..64 {
        v.push(1u64 << k);
        v.push((1u64 << k).wrapping_sub(1));
        v.push((1u64 << k) | 1);
        v.push(((1u64 << k) | (1u64 << (k / 2))).wrapping_neg());
    }
    v.extend(patterns(500));
    v
}

#[test]
fn integer_to_float_conversions_agree_with_the_hardware() {
    for a in i64_samples() {
        let low = a as u32;
        assert_eq!(unop(0xb2, I32, F32, a).value.as_u64(), (low as i32 as f32).to_bits() as u64, "{:#x}", a);
        assert_eq!(unop(0xb3, I32, F32, a).value.as_u64(), (low as f32).to_bits() as u64, "{:#x}", a);
        assert_eq!(unop(0xb4, I64, F32, a).value.as_u64(), (a as i64 as f32).to_bits() as u64, "{:#x}", a);
        assert_eq!(unop(0xb5, I64, F32, a).value.as_u64(), (a as f32).to_bits() as u64, "{:#x}", a);
        assert_eq!(unop(0xb7, I32, F64, a).value.as_u64(), (low as i32 as f64).to_bits(), "{:#x}", a);
        assert_eq!(unop(0xb8, I32, F64, a).value.as_u64(), (low as f64).to_bits(), "{:#x}", a);
        assert_eq!(unop(0xb9, I64, F64, a).value.as_u64(), (a as i64 as f64).to_bits(), "{:#x}", a);
        assert_eq!(unop(0xba, I64, F64, a).value.as_u64(), (a as f64).to_bits(), "{:#x}", a);
    }
    assert_eq!(unop(0xb5, I64, F32, 0x0100_0001).value.as_u64(), 0x4b80_0000);
    assert_eq!(unop(0xb5, I64, F32, 0x0100_0003).value.as_u64(), 0x4b80_0002);
    assert_eq!(unop(0xb9, I64, F64, (-3i64) as u64).value.as_u64(), 0xc008_0000_0000_0000);
}

fn f64_patterns() -> Vec<u64> {
    let mut v: Vec<u64> = f64_samples().iter().map(|x| x.to_bits()).collect();
    v.extend(f32_samples().iter().map(|x| (*x as f64).to_bits()));
    for e in [0u64, 1, 2, 0x36a, 0x37f, 0x380, 0x381, 0x3fe, 0x3ff, 0x400, 0x47d, 0x47e, 0x47f, 0x7fe] {
        for f in [0u64, 1, 0x0000_0000_1000_0000, 0x0000_0000_0fff_ffff, 0x0000_0000_1000_0001,
            0x0000_0000_3000_0000, 0x0000_0000_2fff_ffff, 0x000f_ffff_e000_0000,
            0x000f_ffff_f000_0000, 0x000f_ffff_ffff_ffff, 0x0008_0000_0000_0000] {
            v.push((e << 52) | f);
            v.push((1 << 63) | (e << 52) | f);
        }
    }
    v.extend(patterns(500));
    v
}

fn same_float32(got: u64, expected: f32) -> bool {
    if expected.is_nan() {
        got == 0x7fc0_0000
    } else {
        got == expected.to_bits() as u64
    }
}

fn same_float64(got: u64, expected: f64) -> bool {
    if expected.is_nan() {
        got == 0x7ff8_0000_0000_0000
    } else {
        got == expected.to_bits()
    }
}

#[test]
fn demotion_and_promotion_agree_with_the_hardware() {
    for a in f64_patterns() {
        let x = f64::from_bits(a);
        let r = unop(0xb6, F64, F32, a);
        assert!(!r.trapped);
        assert!(same_float32(r.value.as_u64(), x as f32), "{:#x}", a);
        let b = a as u32;
        let y = f32::from_bits(b);
        let r = unop(0xbb, F32, F64, b as u64);
        assert!(same_float64(r.value.as_u64(), y as f64), "{:#x}", b);
    }
    for y in f32_samples() {
        let r = unop(0xbb, F32, F64, y.to_bits() as u64);
        assert!(same_float64(r.value.as_u64(), y as f64), "{}", y);
    }
    // The smallest 32-bit float, and half of it, which is a tie that goes to zero.
    assert_eq!(unop(0xb6, F64, F32, 0x36a0_0000_0000_0000).value.as_u64(), 1);
    assert_eq!(unop(0xb6, F64, F32, 0x3690_0000_0000_0000).value.as_u64(), 0);
    assert_eq!(unop(0xb6, F64, F32, 0x3690_0000_0000_0001).value.as_u64(), 1);
    assert_eq!(unop(0xb6, F64, F32, 0xb690_0000_0000_0000).value.as_u64(), 0x8000_0000);
    // The largest 32-bit float, and what rounds to infinity.
    assert_eq!(unop(0xb6, F64, F32, 0x47ef_ffff_e000_0000).value.as_u64(), 0x7f7f_ffff);
    assert_eq!(unop(0xb6, F64, F32, 0x47ef_ffff_f000_0000).value.as_u64(), 0x7f80_0000);
    assert_eq!(unop(0xb6, F64, F32, 0x47ef_ffff_efff_ffff).value.as_u64(), 0x7f7f_ffff);
}

fn f32_patterns() -> Vec<u32> {
    let mut v: Vec<u32> = f32_samples().iter().map(|x| x.to_bits()).collect();
    for e in [0u32, 1, 2, 0x3f, 0x40, 0x7d, 0x7e, 0x7f, 0x80, 0x95, 0x96, 0x97, 0xbe, 0xfd, 0xfe] {
        for f in [0u32, 1, 2, 3, 0x40_0000, 0x3f_ffff, 0x40_0001, 0x7f_ffff, 0x7f_fffe, 0x00_1000] {
            v.push((e << 23) | f);
            v.push((1 << 31) | (e << 23) | f);
        }
    }
    v.extend(patterns(300).iter().map(|x| *x as u32));
    v
}

#[test]
fn rounding_to_integers_agrees_with_the_hardware() {
    let ops32: [(u8, fn(f32) -> f32); 4] = [
        (0x8d, |x| x.ceil()),
        (0x8e, |x| x.floor()),
        (0x8f, |x| x.trunc()),
        (0x90, |x| x.round_ties_even()),
    ];
    for (op, f) in ops32.iter() {
        let mut p = Parts::new();
        p.func(&[F32], &[F32], &[], &[0x20, 0x00, *op]);
        let mut inst = instance_of(&p);
        for a in f32_patterns() {
            let r = inst.execute(0, &[Value::from(a)]);
            assert!(!r.trapped && r.has_value);
            assert!(same_float32(r.value.as_u64(), f(f32::from_bits(a))), "{:#x} {:#x}", op, a);
        }
    }
    let ops64: [(u8, fn(f64) -> f64); 4] = [
        (0x9b, |x| x.ceil()),
        (0x9c, |x| x.floor()),
        (0x9d, |x| x.trunc()),
        (0x9e, |x| x.round_ties_even()),
    ];
    for (op, f) in ops64.iter() {
        let mut p = Parts::new();
        p.func(&[F64], &[F64], &[], &[0x20, 0x00, *op]);
        let mut inst = instance_of(&p);
        for a in f64_patterns() {
            let r = inst.execute(0, &[Value::from(a)]);
            assert!(!r.trapped && r.has_value);
            assert!(same_float64(r.value.as_u64(), f(f64::from_bits(a))), "{:#x} {:#x}", op, a);
        }
    }
    assert_eq!(unop(0x8d, F32, F32, (-0.5f32).to_bits() as u64).value.as_u64(), 0x8000_0000);
    assert_eq!(unop(0x90, F32, F32, 2.5f32.to_bits() as u64).value.as_u64(), 2.0f32.to_bits() as u64);
    assert_eq!(unop(0x90, F32, F32, 3.5f32.to_bits() as u64).value.as_u64(), 4.0f32.to_bits() as u64);
}

#[test]
fn multiplication_agrees_with_the_hardware() {
    let mut p = Parts::new();
    p.func(&[F32, F32], &[F32], &[], &[0x20, 0x00, 0x20, 0x01, 0x94]);
    p.func(&[F64, F64], &[F64], &[], &[0x20, 0x00, 0x20, 0x01, 0xa2]);
    let mut inst = instance_of(&p);
    let narrow = f32_patterns();
    for (i, a) in narrow.iter().enumerate() {
        for b in narrow.iter().skip(i % 7).step_by(7) {
            let r = inst.execute(0, &[Value::from(*a), Value::from(*b)]);
            let expected = f32::from_bits(*a) * f32::from_bits(*b);
            assert!(same_float32(r.value.as_u64(), expected), "{:#x} {:#x}", a, b);
        }
    }
    let wide = f64_patterns();
    for (i, a) in wide.iter().enumerate() {
        for b in wide.iter().skip(i % 11).step_by(11) {
            let r = inst.execute(1, &[Value::from(*a), Value::from(*b)]);
            let expected = f64::from_bits(*a) * f64::from_bits(*b);
            assert!(same_float64(r.value.as_u64(), expected), "{:#x} {:#x}", a, b);
        }
    }
    let r = inst.execute(1, &[f64_value(1.5), f64_value(-2.5)]);
    assert_eq!(f64::from_bits(r.value.as_u64()), -3.75);
    let r = inst.execute(0, &[f32_value(0.0), f32_value(f32::INFINITY)]);
    assert_eq!(r.value.as_u64(), 0x7fc0_0000);
}

#[test]
fn addition_and_subtraction_agree_with_the_hardware() {
    let mut p = Parts::new();
    p.func(&[F32, F32], &[F32], &[], &[0x20, 0x00, 0x20, 0x01, 0x92]);
    p.func(&[F32, F32], &[F32], &[], &[0x20, 0x00, 0x20, 0x01, 0x93]);
    p.func(&[F64, F64], &[F64], &[], &[0x20, 0x00, 0x20, 0x01, 0xa0]);
    p.func(&[F64, F64], &[F64], &[], &[0x20, 0x00, 0x20, 0x01, 0xa1]);
    let mut inst = instance_of(&p);
    let narrow = f32_patterns();
    for (i, a) in narrow.iter().enumerate() {
        for b in narrow.iter().skip(i % 5).step_by(5) {
            let (x, y) = (f32::from_bits(*a), f32::from_bits(*b));
            let r = inst.execute(0, &[Value::from(*a), Value::from(*b)]);
            assert!(same_float32(r.value.as_u64(), x + y), "{:#x} + {:#x}", a, b);
            let r = inst.execute(1, &[Value::from(*a), Value::from(*b)]);
            assert!(same_float32(r.value.as_u64(), x - y), "{:#x} - {:#x}", a, b);
        }
    }
    let wide = f64_patterns();
    for (i, a) in wide.iter().enumerate() {
        for b in wide.iter().skip(i % 9).step_by(9) {
            let (x, y) = (f64::from_bits(*a), f64::from_bits(*b));
            let r = inst.execute(2, &[Value::from(*a), Value::from(*b)]);
            assert!(same_float64(r.value.as_u64(), x + y), "{:#x} + {:#x}", a, b);
            let r = inst.execute(3, &[Value::from(*a), Value::from(*b)]);
            assert!(same_float64(r.value.as_u64(), x - y), "{:#x} - {:#x}", a, b);
        }
    }
    // Terms near each other, and terms that differ by about the precision.
    for k in 0..130 {
        let big = 2.0f64.powi(k);
        for small in [1.0f64, 1.5, 3.0, 0.75, 1.0 + f64::EPSILON] {
            for (x, y) in [(big, small), (small, big), (-big, small), (big, -small), (small, -big)] {
                let r = inst.execute(2, &[f64_value(x), f64_value(y)]);
                assert!(same_float64(r.value.as_u64(), x + y), "{} + {}", x, y);
                let r = inst.execute(3, &[f64_value(x), f64_value(y)]);
                assert!(same_float64(r.value.as_u64(), x - y), "{} - {}", x, y);
                let (u, v) = (x as f32, y as f32);
                let r = inst.execute(0, &[f32_value(u), f32_value(v)]);
                assert!(same_float32(r.value.as_u64(), u + v), "{} + {}", u, v);
                let r = inst.execute(1, &[f32_value(u), f32_value(v)]);
                assert!(same_float32(r.value.as_u64(), u - v), "{} - {}", u, v);
            }
        }
    }
    assert_eq!(inst.execute(0, &[f32_value(1.5), f32_value(2.25)]).value.as_u64(), 0x4070_0000);
    assert_eq!(inst.execute(2, &[f64_value(-0.0), f64_value(0.0)]).value.as_u64(), 0);
    assert_eq!(inst.execute(2, &[f64_value(-0.0), f64_value(-0.0)]).value.as_u64(), 1 << 63);
    assert_eq!(inst.execute(3, &[f64_value(1.0), f64_value(1.0)]).value.as_u64(), 0);
    assert_eq!(inst.execute(3, &[f64_value(f64::INFINITY), f64_value(f64::INFINITY)]).value.as_u64(), 0x7ff8_0000_0000_0000);
}

#[test]
fn division_and_square_root_agree_with_the_hardware() {
    let mut p = Parts::new();
    p.func(&[F32, F32], &[F32], &[], &[0x20, 0x00, 0x20, 0x01, 0x95]);
    p.func(&[F64, F64], &[F64], &[], &[0x20, 0x00, 0x20, 0x01, 0xa3]);
    p.func(&[F32], &[F32], &[], &[0x20, 0x00, 0x91]);
    p.func(&[F64], &[F64], &[], &[0x20, 0x00, 0x9f]);
    let mut inst = instance_of(&p);
    let narrow = f32_patterns();
    for (i, a) in narrow.iter().enumerate() {
        for b in narrow.iter().skip(i % 7).step_by(7) {
            let r = inst.execute(0, &[Value::from(*a), Value::from(*b)]);
            let expected = f32::from_bits(*a) / f32::from_bits(*b);
            assert!(same_float32(r.value.as_u64(), expected), "{:#x} / {:#x}", a, b);
        }
        let r = inst.execute(2, &[Value::from(*a)]);
        assert!(same_float32(r.value.as_u64(), f32::from_bits(*a).sqrt()), "sqrt {:#x}", a);
    }
    let wide = f64_patterns();
    for (i, a) in wide.iter().enumerate() {
        for b in wide.iter().skip(i % 11).step_by(11) {
            let r = inst.execute(1, &[Value::from(*a), Value::from(*b)]);
            let expected = f64::from_bits(*a) / f64::from_bits(*b);
            assert!(same_float64(r.value.as_u64(), expected), "{:#x} / {:#x}", a, b);
        }
        let r = inst.execute(3, &[Value::from(*a)]);
        assert!(same_float64(r.value.as_u64(), f64::from_bits(*a).sqrt()), "sqrt {:#x}", a);
    }
    for n in 1..200u32 {
        for d in 1..50u32 {
            let r = inst.execute(1, &[f64_value(n as f64), f64_value(d as f64)]);
            assert_eq!(r.value.as_u64(), (n as f64 / d as f64).to_bits());
            let r = inst.execute(0, &[f32_value(n as f32), f32_value(d as f32)]);
            assert_eq!(r.value.as_u64(), (n as f32 / d as f32).to_bits() as u64);
        }
        let r = inst.execute(3, &[f64_value(n as f64)]);
        assert_eq!(r.value.as_u64(), (n as f64).sqrt().to_bits());
        let r = inst.execute(2, &[f32_value(n as f32)]);
        assert_eq!(r.value.as_u64(), (n as f32).sqrt().to_bits() as u64);
    }
    assert_eq!(inst.execute(1, &[f64_value(1.0), f64_value(3.0)]).value.as_u64(), 0x3fd5_5555_5555_5555);
    assert_eq!(inst.execute(3, &[f64_value(2.0)]).value.as_u64(), 0x3ff6_a09e_667f_3bcd);
    assert_eq!(inst.execute(1, &[f64_value(0.0), f64_value(0.0)]).value.as_u64(), 0x7ff8_0000_0000_0000);
    assert_eq!(inst.execute(1, &[f64_value(-1.0), f64_value(0.0)]).value.as_u64(), 0xfff0_0000_0000_0000);
    assert_eq!(inst.execute(3, &[f64_value(-0.0)]).value.as_u64(), 1 << 63);
    assert_eq!(inst.execute(3, &[f64_value(-1.0)]).value.as_u64(), 0x7ff8_0000_0000_0000);
}

#[test]
fn float_arithmetic_gives_exact_results() {
    let mut inst = instance_of(&float_module());
    let r = inst.execute(0, &[f32_value(1.5), f32_value(2.25)]);
    assert!(!r.trapped && r.has_value);
    assert_eq!(f32::from_bits(r.value.as_u32()), 3.75);
    assert_eq!(r.value.as_u64(), 0x4070_0000);
    let r = inst.execute(1, &[f64_value(3.0), f64_value(0.5)]);
    assert_eq!(f64::from_bits(r.value.as_u64()), 4.5);
    assert_eq!(inst.execute(9, &[f32_value(1.0), f32_value(2.0)]).value.as_i32(), 1);
    assert_eq!(inst.execute(9, &[f32_value(f32::NAN), f32_value(2.0)]).value.as_i32(), 0);
    let r = inst.execute(10, &[f64_value(2.25)]);
    assert_eq!(f64::from_bits(r.value.as_u64()), 1.5);
    let r = inst.execute(11, &[f32_value(16.0)]);
    assert_eq!(f32::from_bits(r.value.as_u32()), 4.0);
    // One tenth and two tenths do not add up to three tenths.
    let r = inst.execute(1, &[f64_value(1.0), f64_value(0.1)]);
    assert_eq!(r.value.as_u64(), 0x3ff1_9999_9999_999a);
}

#[test]
fn float_truncation_traps() {
    let mut inst = instance_of(&float_module());
    assert_eq!(inst.execute(2, &[f32_value(-7.9)]).value.as_i32(), -7);
    let r = inst.execute(2, &[f32_value(f32::NAN)]);
    assert!(r.trapped && !r.has_value);
    assert_eq!(r.trap, Some(Trap::InvalidConversion));
    assert_eq!(inst.execute(2, &[f32_value(f32::INFINITY)]).trap, Some(Trap::InvalidConversion));
    assert_eq!(inst.execute(2, &[f32_value(3.0e9)]).trap, Some(Trap::InvalidConversion));
    assert_eq!(Trap::InvalidConversion.message(), "invalid conversion to integer");
    // The instance stays usable.
    assert_eq!(inst.execute(2, &[f32_value(2147483520.0)]).value.as_i32(), 2147483520);
}

#[test]
fn nested_loops_branch_to_the_right_region() {
    let mut p = Parts::new();
    p.func(
        &[I32, I32],
        &[I32],
        &[(3, I32)],
        &[
            0x02, 0x40, 0x03, 0x40, 0x20, 0x02, 0x20, 0x00, 0x4f, 0x0d, 0x01, 0x41, 0x00, 0x21,
            0x03, 0x02, 0x40, 0x03, 0x40, 0x20, 0x03, 0x20, 0x01, 0x4f, 0x0d, 0x01, 0x20, 0x04,
            0x41, 0x01, 0x6a, 0x21, 0x04, 0x20, 0x03, 0x41, 0x01, 0x6a, 0x21, 0x03, 0x0c, 0x00,
            0x0b, 0x0b, 0x20, 0x02, 0x41, 0x01, 0x6a, 0x21, 0x02, 0x0c, 0x00, 0x0b, 0x0b, 0x20,
            0x04,
        ],
    );
    // A branch out of two loops and a block at once, with a value.
    p.func(
        &[I32],
        &[I32],
        &[],
        &[
            0x02, 0x7f, 0x03, 0x40, 0x03, 0x40, 0x20, 0x00, 0x41, 0x07, 0x6c, 0x20, 0x00, 0x0d,
            0x02, 0x1a, 0x41, 0x63, 0x0c, 0x02, 0x0b, 0x0b, 0x41, 0x00, 0x0b,
        ],
    );
    let mut inst = instance_of(&p);
    assert_eq!(call_i32(&mut inst, 0, &[3, 4]).value.as_i32(), 12);
    assert_eq!(call_i32(&mut inst, 0, &[0, 5]).value.as_i32(), 0);
    assert_eq!(call_i32(&mut inst, 0, &[5, 0]).value.as_i32(), 0);
    assert_eq!(call_i32(&mut inst, 0, &[10, 10]).value.as_i32(), 100);
    assert_eq!(call_i32(&mut inst, 1, &[6]).value.as_i32(), 42);
    assert_eq!(call_i32(&mut inst, 1, &[0]).value.as_i32(), -29);
}

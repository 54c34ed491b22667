use fizzy::leb128::{read_i32, read_i64, read_sleb, read_u32, read_uleb};
use fizzy::types::{BlockType, ExternKind, Instr, ValType};
use fizzy::{decode, validate, validate_draft, DecodeError, ValidationError};

const I32: u8 = 0x7f;
const I64: u8 = 0x7e;
const F32: u8 = 0x7d;
const F64: u8 = 0x7c;

fn uleb(mut n: u64) -> Vec<u8> {
    let mut out = Vec::new();
    loop {
        let b = (n & 0x7f) as u8;
        n >>= 7;
        if n == 0 {
            out.push(b);
            return out;
        }
        out.push(b | 0x80);
    }
}

fn sleb(mut n: i64) -> Vec<u8> {
    let mut out = Vec::new();
    loop {
        let b = (n & 0x7f) as u8;
        n >>= 7;
        if (n == 0 && b & 0x40 == 0) || (n == -1 && b & 0x40 != 0) {
            out.push(b);
            return out;
        }
        out.push(b | 0x80);
    }
}

fn cat(parts: &[&[u8]]) -> Vec<u8> {
    let mut out = Vec::new();
    for p in parts {
        out.extend_from_slice(p);
    }
    out
}

fn vector(items: &[Vec<u8>]) -> Vec<u8> {
    let mut out = uleb(items.len() as u64);
    for i in items {
        out.extend_from_slice(i);
    }
    out
}

fn section(id: u8, payload: &[u8]) -> Vec<u8> {
    cat(&[&[id], &uleb(payload.len() as u64), payload])
}

fn functype(params: &[u8], results: &[u8]) -> Vec<u8> {
    cat(&[&[0x60], &uleb(params.len() as u64), params, &uleb(results.len() as u64), results])
}

fn body(locals: &[(u32, u8)], code: &[u8]) -> Vec<u8> {
    let groups: Vec<Vec<u8>> = locals.iter().map(|(n, t)| cat(&[&uleb(*n as u64), &[*t]])).collect();
    let inner = cat(&[&vector(&groups), code, &[0x0b]]);
    cat(&[&uleb(inner.len() as u64), &inner])
}

fn i32_const(v: i32) -> Vec<u8> {
    cat(&[&[0x41], &sleb(v as i64)])
}

fn i64_const(v: i64) -> Vec<u8> {
    cat(&[&[0x42], &sleb(v)])
}

/// The parts of a module, put together in the order of the sections.
struct Parts {
    types: Vec<Vec<u8>>,
    imports: Vec<Vec<u8>>,
    funcs: Vec<u32>,
    tables: Vec<Vec<u8>>,
    mems: Vec<Vec<u8>>,
    globals: Vec<Vec<u8>>,
    exports: Vec<Vec<u8>>,
    start: Option<u32>,
    elems: Vec<Vec<u8>>,
    codes: Vec<Vec<u8>>,
    datas: Vec<Vec<u8>>,
}

impl Parts {
    fn new() -> Parts {
        Parts {
            types: Vec::new(),
            imports: Vec::new(),
            funcs: Vec::new(),
            tables: Vec::new(),
            mems: Vec::new(),
            globals: Vec::new(),
            exports: Vec::new(),
            start: None,
            elems: Vec::new(),
            codes: Vec::new(),
            datas: Vec::new(),
        }
    }

    fn func(&mut self, params: &[u8], results: &[u8], locals: &[(u32, u8)], code: &[u8]) -> u32 {
        self.types.push(functype(params, results));
        self.funcs.push((self.types.len() - 1) as u32);
        self.codes.push(body(locals, code));
        (self.funcs.len() - 1) as u32
    }

    fn memory(&mut self, min: u32, max: Option<u32>) {
        self.mems.push(limits(min, max));
    }

    fn table(&mut self, min: u32, max: Option<u32>) {
        self.tables.push(cat(&[&[0x70], &limits(min, max)]));
    }

    fn global(&mut self, ty: u8, mutable: bool, init: &[u8]) {
        self.globals.push(cat(&[&[ty, mutable as u8], init, &[0x0b]]));
    }

    fn export(&mut self, name: &str, kind: u8, index: u32) {
        self.exports.push(cat(&[&uleb(name.len() as u64), name.as_bytes(), &[kind], &uleb(index as u64)]));
    }

    fn elem(&mut self, offset: i32, funcs: &[u32]) {
        let items: Vec<Vec<u8>> = funcs.iter().map(|f| uleb(*f as u64)).collect();
        self.elems.push(cat(&[&[0x00], &i32_const(offset), &[0x0b], &vector(&items)]));
    }

    fn data(&mut self, offset: i32, bytes: &[u8]) {
        self.datas.push(cat(&[&[0x00], &i32_const(offset), &[0x0b], &uleb(bytes.len() as u64), bytes]));
    }

    fn build(&self) -> Vec<u8> {
        let mut out = vec![0x00, 0x61, 0x73, 0x6d, 0x01, 0x00, 0x00, 0x00];
        let funcs: Vec<Vec<u8>> = self.funcs.iter().map(|t| uleb(*t as u64)).collect();
        let lists: [(u8, &Vec<Vec<u8>>); 10] = [
            (1, &self.types),
            (2, &self.imports),
            (3, &funcs),
            (4, &self.tables),
            (5, &self.mems),
            (6, &self.globals),
            (7, &self.exports),
            (9, &self.elems),
            (10, &self.codes),
            (11, &self.datas),
        ];
        for (id, items) in lists.iter() {
            if *id == 9 {
                if let Some(f) = self.start {
                    out.extend(section(8, &uleb(f as u64)));
                }
            }
            if !items.is_empty() {
                out.extend(section(*id, &vector(items)));
            }
        }
        out
    }
}

fn limits(min: u32, max: Option<u32>) -> Vec<u8> {
    match max {
        Some(m) => cat(&[&[0x01], &uleb(min as u64), &uleb(m as u64)]),
        None => cat(&[&[0x00], &uleb(min as u64)]),
    }
}

const PREAMBLE: [u8; 8] = [0x00, 0x61, 0x73, 0x6d, 0x01, 0x00, 0x00, 0x00];

fn with_preamble(rest: &[u8]) -> Vec<u8> {
    cat(&[&PREAMBLE, rest])
}

fn check_bytes(bytes: &[u8]) -> Result<(), ValidationError> {
    let draft = decode(bytes).expect("the bytes decode");
    validate_draft(draft).map(|_| ())
}

/// A module with one function of the given signature and body.
fn one_function(params: &[u8], results: &[u8], locals: &[(u32, u8)], code: &[u8]) -> Vec<u8> {
    let mut p = Parts::new();
    p.func(params, results, locals, code);
    p.build()
}

fn code_error(params: &[u8], results: &[u8], code: &[u8]) -> Result<(), ValidationError> {
    check_bytes(&one_function(params, results, &[], code))
}

fn at(position: usize) -> Result<(), ValidationError> {
    Err(ValidationError::Code { func: 0, at: position })
}

#[test]
fn unsigned_leb128() {
    assert_eq!(read_u32(&[0x00], 0), Some((0, 1)));
    assert_eq!(read_u32(&[0x7f], 0), Some((127, 1)));
    assert_eq!(read_u32(&[0x80, 0x01], 0), Some((128, 2)));
    assert_eq!(read_u32(&[0xe5, 0x8e, 0x26], 0), Some((624485, 3)));
    assert_eq!(read_u32(&[0xff, 0xff, 0xff, 0xff, 0x0f], 0), Some((u32::MAX, 5)));
    assert_eq!(read_u32(&[0xaa, 0xe5, 0x8e, 0x26, 0xbb], 1), Some((624485, 4)));
    for v in [0u64, 1, 127, 128, 300, 16383, 16384, 0x0fff_ffff, 0x1000_0000, 0xffff_ffff] {
        let bytes = uleb(v);
        assert_eq!(read_u32(&bytes, 0), Some((v as u32, bytes.len())));
        assert_eq!(read_uleb(&bytes, 0, 32), Some((v, bytes.len())));
    }
    for v in [0x1_0000_0000u64, 0x7fff_ffff_ffff_ffff, u64::MAX] {
        let bytes = uleb(v);
        assert_eq!(read_uleb(&bytes, 0, 64), Some((v, bytes.len())));
        assert_eq!(read_u32(&bytes, 0), None);
    }
}

#[test]
fn unsigned_leb128_rejects_what_is_not_shortest_or_too_wide() {
    // Bytes run out.
    assert_eq!(read_u32(&[], 0), None);
    assert_eq!(read_u32(&[0x80], 0), None);
    assert_eq!(read_u32(&[0x01], 1), None);
    assert_eq!(read_u32(&[0x01], 7), None);
    // Longer than needed.
    assert_eq!(read_u32(&[0x80, 0x00], 0), None);
    assert_eq!(read_u32(&[0xff, 0x80, 0x00], 0), None);
    assert_eq!(read_u32(&[0x81, 0x80, 0x80, 0x80, 0x00], 0), None);
    // Too wide.
    assert_eq!(read_u32(&[0xff, 0xff, 0xff, 0xff, 0x10], 0), None);
    assert_eq!(read_u32(&[0xff, 0xff, 0xff, 0xff, 0x1f], 0), None);
    assert_eq!(read_u32(&[0x80, 0x80, 0x80, 0x80, 0x80, 0x01], 0), None);
    assert_eq!(read_uleb(&[0xff, 0xff, 0xff, 0xff, 0xff, 0xff, 0xff, 0xff, 0xff, 0x02], 0, 64), None);
    assert_eq!(read_uleb(&[0x08], 0, 3), None);
    assert_eq!(read_uleb(&[0x07], 0, 3), Some((7, 1)));
}

#[test]
fn signed_leb128() {
    assert_eq!(read_i32(&[0x00], 0), Some((0, 1)));
    assert_eq!(read_i32(&[0x7f], 0), Some((-1, 1)));
    assert_eq!(read_i32(&[0x3f], 0), Some((63, 1)));
    assert_eq!(read_i32(&[0x40], 0), Some((-64, 1)));
    assert_eq!(read_i32(&[0xc0, 0x00], 0), Some((64, 2)));
    assert_eq!(read_i32(&[0xbf, 0x7f], 0), Some((-65, 2)));
    assert_eq!(read_i32(&[0x80, 0x7f], 0), Some((-128, 2)));
    assert_eq!(read_i32(&[0x80, 0x80, 0x80, 0x80, 0x78], 0), Some((i32::MIN, 5)));
    assert_eq!(read_i32(&[0xff, 0xff, 0xff, 0xff, 0x07], 0), Some((i32::MAX, 5)));
    for v in [0i64, 1, -1, 63, 64, -64, -65, 8191, 8192, -8192, -8193, 0x7fff_ffff, -0x8000_0000] {
        let bytes = sleb(v);
        assert_eq!(read_i32(&bytes, 0), Some((v as i32, bytes.len())));
        assert_eq!(read_i64(&bytes, 0), Some((v, bytes.len())));
        assert_eq!(read_sleb(&bytes, 0, 64), Some((v, bytes.len())));
    }
    for v in [0x8000_0000i64, -0x8000_0001, i64::MAX, i64::MIN, 0x1234_5678_9abc] {
        let bytes = sleb(v);
        assert_eq!(read_i64(&bytes, 0), Some((v, bytes.len())));
        assert_eq!(read_i32(&bytes, 0), None);
    }
}

#[test]
fn signed_leb128_rejects_what_is_not_shortest_or_too_wide() {
    assert_eq!(read_i32(&[], 0), None);
    assert_eq!(read_i32(&[0xff], 0), None);
    // Longer than needed.
    assert_eq!(read_i32(&[0x80, 0x00], 0), None);
    assert_eq!(read_i32(&[0xff, 0x7f], 0), None);
    assert_eq!(read_i32(&[0xbf, 0x00], 0), None);
    assert_eq!(read_i32(&[0xc0, 0x7f], 0), None);
    // Too wide.
    assert_eq!(read_i32(&[0x80, 0x80, 0x80, 0x80, 0x08], 0), None);
    assert_eq!(read_i32(&[0xff, 0xff, 0xff, 0xff, 0x77], 0), None);
    assert_eq!(read_i32(&[0xff, 0xff, 0xff, 0xff, 0x4f], 0), None);
    assert_eq!(read_i64(&[0x80, 0x80, 0x80, 0x80, 0x80, 0x80, 0x80, 0x80, 0x80, 0x01], 0), None);
    assert_eq!(read_i64(&[0x80, 0x80, 0x80, 0x80, 0x80, 0x80, 0x80, 0x80, 0x80, 0x7e], 0), None);
}

#[test]
fn preamble_errors() {
    assert_eq!(decode(&[]).err(), Some(DecodeError::UnexpectedEnd));
    assert_eq!(decode(&PREAMBLE[..7]).err(), Some(DecodeError::UnexpectedEnd));
    assert_eq!(decode(&[0x01, 0x61, 0x73, 0x6d, 0x01, 0x00, 0x00, 0x00]).err(), Some(DecodeError::BadMagic));
    assert_eq!(decode(&[0x00, 0x61, 0x73, 0x6e, 0x01, 0x00, 0x00, 0x00]).err(), Some(DecodeError::BadMagic));
    assert_eq!(decode(&[0x00, 0x61, 0x73, 0x6d, 0x02, 0x00, 0x00, 0x00]).err(), Some(DecodeError::BadVersion));
    assert_eq!(decode(&[0x00, 0x61, 0x73, 0x6d, 0x01, 0x00, 0x00, 0x01]).err(), Some(DecodeError::BadVersion));
    // The magic is looked at first.
    assert_eq!(decode(&[0x00, 0x61, 0x73, 0x00, 0x09, 0x00, 0x00, 0x00]).err(), Some(DecodeError::BadMagic));
    assert!(decode(&PREAMBLE).is_ok());
}

#[test]
fn section_framing_errors() {
    let malformed = Some(DecodeError::Malformed);
    // An id without a size; a size without its payload.
    assert_eq!(decode(&with_preamble(&[0x01])).err(), malformed);
    assert_eq!(decode(&with_preamble(&[0x01, 0x05, 0x00])).err(), malformed);
    // The payload is shorter or longer than the size.
    assert_eq!(decode(&with_preamble(&[0x01, 0x02, 0x00, 0x00])).err(), malformed);
    assert_eq!(decode(&with_preamble(&[0x01, 0x01, 0x01, 0x60, 0x00, 0x00])).err(), malformed);
    // The size is not in its shortest form.
    assert_eq!(decode(&with_preamble(&[0x01, 0x81, 0x00, 0x00])).err(), malformed);
    // An id that is not known.
    assert_eq!(decode(&with_preamble(&[0x0c, 0x01, 0x00])).err(), malformed);
    // Bytes after the last section.
    assert_eq!(decode(&with_preamble(&[0x01, 0x01, 0x00, 0x00])).err(), malformed);
    assert!(decode(&with_preamble(&[0x01, 0x01, 0x00])).is_ok());
}

#[test]
fn sections_stand_in_order_and_once() {
    let types = section(1, &vector(&[functype(&[], &[])]));
    let memory = section(5, &vector(&[limits(1, None)]));
    let table = section(4, &vector(&[cat(&[&[0x70], &limits(1, None)])]));
    assert!(decode(&with_preamble(&cat(&[&types, &table, &memory]))).is_ok());
    assert_eq!(
        decode(&with_preamble(&cat(&[&types, &memory, &table]))).err(),
        Some(DecodeError::Malformed)
    );
    assert_eq!(
        decode(&with_preamble(&cat(&[&types, &types]))).err(),
        Some(DecodeError::Malformed)
    );
    assert_eq!(
        decode(&with_preamble(&cat(&[&memory, &types]))).err(),
        Some(DecodeError::Malformed)
    );
}

#[test]
fn custom_sections_may_stand_anywhere() {
    let types = section(1, &vector(&[functype(&[], &[])]));
    let memory = section(5, &vector(&[limits(1, None)]));
    let custom = section(0, &[0x04, b'n', b'a', b'm', b'e', 0xde, 0xad]);
    let bytes = with_preamble(&cat(&[&custom, &types, &custom, &custom, &memory, &custom]));
    let draft = decode(&bytes).unwrap();
    assert_eq!(draft.types.len(), 1);
    assert_eq!(draft.mems.len(), 1);
    assert!(validate(&bytes));
    // The name has to fit the section.
    assert_eq!(decode(&with_preamble(&[0x00, 0x02, 0x05, b'a', b'b', b'c', b'd', b'e'])).err(), Some(DecodeError::Malformed));
    assert_eq!(decode(&with_preamble(&[0x00, 0x00])).err(), Some(DecodeError::Malformed));
    assert!(decode(&with_preamble(&[0x00, 0x01, 0x00])).is_ok());
}

#[test]
fn every_function_has_a_body() {
    let types = section(1, &vector(&[functype(&[], &[])]));
    let funcs = section(3, &vector(&[uleb(0), uleb(0)]));
    let one = section(10, &vector(&[body(&[], &[])]));
    let two = section(10, &vector(&[body(&[], &[]), body(&[], &[])]));
    assert_eq!(decode(&with_preamble(&cat(&[&types, &funcs, &one]))).err(), Some(DecodeError::Malformed));
    assert_eq!(decode(&with_preamble(&cat(&[&types, &funcs]))).err(), Some(DecodeError::Malformed));
    assert_eq!(decode(&with_preamble(&cat(&[&types, &one]))).err(), Some(DecodeError::Malformed));
    assert!(decode(&with_preamble(&cat(&[&types, &funcs, &two]))).is_ok());
}

#[test]
fn function_body_errors() {
    let malformed = Some(DecodeError::Malformed);
    let wrap = |raw_body: &[u8]| {
        let types = section(1, &vector(&[functype(&[], &[])]));
        let funcs = section(3, &vector(&[uleb(0)]));
        let code = section(10, &cat(&[&[0x01], raw_body]));
        with_preamble(&cat(&[&types, &funcs, &code]))
    };
    assert!(decode(&wrap(&[0x02, 0x00, 0x0b])).is_ok());
    // The size does not match.
    assert_eq!(decode(&wrap(&[0x03, 0x00, 0x0b])).err(), malformed);
    assert_eq!(decode(&wrap(&[0x03, 0x00, 0x0b, 0x0b])).err(), malformed);
    assert_eq!(decode(&wrap(&[0x02, 0x00, 0x01, 0x0b])).err(), malformed);
    // The body does not end with `end`, or a block is left open.
    assert_eq!(decode(&wrap(&[0x02, 0x00, 0x01])).err(), malformed);
    assert_eq!(decode(&wrap(&[0x04, 0x00, 0x02, 0x40, 0x0b])).err(), malformed);
    assert!(decode(&wrap(&[0x05, 0x00, 0x02, 0x40, 0x0b, 0x0b])).is_ok());
    // An opcode that is not known; a block type that is none.
    assert_eq!(decode(&wrap(&[0x03, 0x00, 0x06, 0x0b])).err(), malformed);
    assert_eq!(decode(&wrap(&[0x03, 0x00, 0xc0, 0x0b])).err(), malformed);
    assert_eq!(decode(&wrap(&[0x05, 0x00, 0x02, 0x41, 0x0b, 0x0b])).err(), malformed);
    // The reserved byte of memory.size and of call_indirect is zero.
    assert_eq!(decode(&wrap(&[0x04, 0x00, 0x3f, 0x01, 0x0b])).err(), malformed);
    assert_eq!(decode(&wrap(&[0x05, 0x00, 0x11, 0x00, 0x01, 0x0b])).err(), malformed);
    // More locals than an index can name.
    assert_eq!(
        decode(&wrap(&cat(&[&[0x0e, 0x02], &uleb(0x8000_0000), &[I32], &uleb(0x8000_0000), &[I32], &[0x0b]]))).err(),
        malformed
    );
    assert!(decode(&wrap(&cat(&[&[0x0e, 0x02], &uleb(0x8000_0000), &[I32], &uleb(0x7fff_ffff), &[I32], &[0x0b]]))).is_ok());
}

#[test]
fn decoded_module_holds_what_the_bytes_say() {
    let bytes = [
        0x00, 0x61, 0x73, 0x6d, 0x01, 0x00, 0x00, 0x00, 0x01, 0x0e, 0x03, 0x60, 0x00, 0x00, 0x60,
        0x00, 0x01, 0x7f, 0x60, 0x02, 0x7f, 0x7f, 0x01, 0x7f, 0x03, 0x05, 0x04, 0x00, 0x01, 0x02,
        0x00, 0x0a, 0x15, 0x04, 0x02, 0x00, 0x0b, 0x04, 0x00, 0x41, 0x2a, 0x0b, 0x07, 0x00, 0x20,
        0x00, 0x20, 0x01, 0x6e, 0x0b, 0x03, 0x00, 0x00, 0x0b,
    ];
    let d = decode(&bytes).unwrap();
    assert_eq!(d.types.len(), 3);
    assert_eq!(d.types[2].params, vec![ValType::I32, ValType::I32]);
    assert_eq!(d.types[2].results, vec![ValType::I32]);
    assert_eq!(d.funcs, vec![0, 1, 2, 0]);
    assert_eq!(d.codes.len(), 4);
    assert_eq!(d.codes[0].instrs, vec![Instr::End]);
    assert_eq!(d.codes[1].instrs, vec![Instr::I32Const(42), Instr::End]);
    assert_eq!(
        d.codes[2].instrs,
        vec![Instr::LocalGet(0), Instr::LocalGet(1), Instr::Numeric(0x6e), Instr::End]
    );
    assert_eq!(d.codes[3].instrs, vec![Instr::Unreachable, Instr::End]);
    assert!(d.start.is_none());
    assert!(d.imports.is_empty() && d.exports.is_empty());
}

#[test]
fn decoded_immediates() {
    let code = cat(&[
        &[0x02, 0x7f],
        &i32_const(-5),
        &[0x0b, 0x1a],
        &i64_const(i64::MIN),
        &[0x1a, 0x43, 0x01, 0x02, 0x03, 0x04, 0x1a],
        &[0x44, 0x01, 0x02, 0x03, 0x04, 0x05, 0x06, 0x07, 0x08, 0x1a],
        &[0x02, 0x40, 0x41, 0x00, 0x0e, 0x01, 0x00, 0x01, 0x0b],
        &[0x02, 0x40, 0x41, 0x00, 0x0e, 0x00, 0x00, 0x0b],
    ]);
    let mut p = Parts::new();
    p.memory(1, None);
    p.func(&[], &[], &[(3, I64), (1, F32)], &code);
    p.export("run", 0x00, 0);
    p.export("memory", 0x02, 0);
    let bytes = p.build();
    let d = decode(&bytes).unwrap();
    let c = &d.codes[0];
    assert_eq!(c.locals.len(), 2);
    assert_eq!((c.locals[0].count, c.locals[0].ty), (3, ValType::I64));
    assert_eq!((c.locals[1].count, c.locals[1].ty), (1, ValType::F32));
    assert_eq!(c.instrs[0], Instr::Block(BlockType::Value(ValType::I32)));
    assert_eq!(c.instrs[1], Instr::I32Const(-5));
    assert_eq!(c.instrs[4], Instr::I64Const(i64::MIN));
    assert_eq!(c.instrs[6], Instr::F32Const(0x0403_0201));
    assert_eq!(c.instrs[8], Instr::F64Const(0x0807_0605_0403_0201));
    assert_eq!(c.instrs[12], Instr::BrTable { first: 0, count: 1 });
    assert_eq!(c.instrs[16], Instr::BrTable { first: 2, count: 0 });
    assert_eq!(c.labels, vec![0, 1, 0]);
    assert_eq!(d.exports.len(), 2);
    assert_eq!(d.exports[0].name, b"run".to_vec());
    assert_eq!(d.exports[1].kind, ExternKind::Memory);
    assert!(validate(&bytes));
}

#[test]
fn module_level_validation_errors() {
    // A function type with two results.
    let mut p = Parts::new();
    p.types.push(functype(&[], &[I32, I32]));
    assert_eq!(check_bytes(&p.build()), Err(ValidationError::Type));
    // An imported function of a type that does not exist.
    let mut p = Parts::new();
    p.imports.push(vec![0x01, b'm', 0x01, b'f', 0x00, 0x05]);
    assert_eq!(check_bytes(&p.build()), Err(ValidationError::Import));
    // An imported memory with its limits out of order.
    let mut p = Parts::new();
    p.imports.push(cat(&[&[0x01, b'm', 0x01, b'f', 0x02], &limits(2, Some(1))]));
    assert_eq!(check_bytes(&p.build()), Err(ValidationError::Import));
    // A function of a type that does not exist.
    let mut p = Parts::new();
    p.func(&[], &[], &[], &[]);
    p.funcs[0] = 3;
    assert_eq!(check_bytes(&p.build()), Err(ValidationError::Function));
    // Two tables; a table with its limits out of order.
    let mut p = Parts::new();
    p.table(1, None);
    p.table(1, None);
    assert_eq!(check_bytes(&p.build()), Err(ValidationError::Table));
    let mut p = Parts::new();
    p.table(2, Some(1));
    assert_eq!(check_bytes(&p.build()), Err(ValidationError::Table));
    // Two memories; a memory that is too large; one imported and one defined.
    let mut p = Parts::new();
    p.memory(1, None);
    p.memory(1, None);
    assert_eq!(check_bytes(&p.build()), Err(ValidationError::Memory));
    let mut p = Parts::new();
    p.memory(65537, None);
    assert_eq!(check_bytes(&p.build()), Err(ValidationError::Memory));
    let mut p = Parts::new();
    p.memory(1, Some(65537));
    assert_eq!(check_bytes(&p.build()), Err(ValidationError::Memory));
    let mut p = Parts::new();
    p.memory(65536, Some(65536));
    assert_eq!(check_bytes(&p.build()), Ok(()));
    let mut p = Parts::new();
    p.imports.push(cat(&[&[0x01, b'm', 0x01, b'f', 0x02], &limits(1, None)]));
    p.memory(1, None);
    assert_eq!(check_bytes(&p.build()), Err(ValidationError::Memory));
}

#[test]
fn global_and_export_validation_errors() {
    // The initializer is of another type, or reads a global that is not imported.
    let mut p = Parts::new();
    p.global(I32, false, &i64_const(1));
    assert_eq!(check_bytes(&p.build()), Err(ValidationError::Global));
    let mut p = Parts::new();
    p.global(I32, false, &i32_const(1));
    p.global(I32, false, &[0x23, 0x00]);
    assert_eq!(check_bytes(&p.build()), Err(ValidationError::Global));
    // An imported immutable global may be read; a mutable one may not.
    let mut p = Parts::new();
    p.imports.push(vec![0x01, b'm', 0x01, b'g', 0x03, I64, 0x00]);
    p.global(I64, true, &[0x23, 0x00]);
    assert_eq!(check_bytes(&p.build()), Ok(()));
    let mut p = Parts::new();
    p.imports.push(vec![0x01, b'm', 0x01, b'g', 0x03, I64, 0x01]);
    p.global(I64, true, &[0x23, 0x00]);
    assert_eq!(check_bytes(&p.build()), Err(ValidationError::Global));
    // An export of something that does not exist; a name used twice.
    let mut p = Parts::new();
    p.func(&[], &[], &[], &[]);
    p.export("f", 0x00, 1);
    assert_eq!(check_bytes(&p.build()), Err(ValidationError::Export));
    let mut p = Parts::new();
    p.export("m", 0x02, 0);
    assert_eq!(check_bytes(&p.build()), Err(ValidationError::Export));
    let mut p = Parts::new();
    p.func(&[], &[], &[], &[]);
    p.memory(1, None);
    p.export("same", 0x00, 0);
    p.export("other", 0x00, 0);
    p.export("same", 0x02, 0);
    assert_eq!(check_bytes(&p.build()), Err(ValidationError::Export));
    let mut p = Parts::new();
    p.func(&[], &[], &[], &[]);
    p.export("same", 0x00, 0);
    p.export("Same", 0x00, 0);
    p.export("", 0x00, 0);
    assert_eq!(check_bytes(&p.build()), Ok(()));
}

#[test]
fn start_and_segment_validation_errors() {
    let mut p = Parts::new();
    p.func(&[I32], &[], &[], &[]);
    p.start = Some(0);
    assert_eq!(check_bytes(&p.build()), Err(ValidationError::Start));
    let mut p = Parts::new();
    p.func(&[], &[I32], &[], &[0x41, 0x00]);
    p.start = Some(0);
    assert_eq!(check_bytes(&p.build()), Err(ValidationError::Start));
    let mut p = Parts::new();
    p.func(&[], &[], &[], &[]);
    p.start = Some(1);
    assert_eq!(check_bytes(&p.build()), Err(ValidationError::Start));
    // An element segment without a table, or with a function that does not exist.
    let mut p = Parts::new();
    p.func(&[], &[], &[], &[]);
    p.elem(0, &[0]);
    assert_eq!(check_bytes(&p.build()), Err(ValidationError::Element));
    let mut p = Parts::new();
    p.table(1, None);
    p.func(&[], &[], &[], &[]);
    p.elem(0, &[1]);
    assert_eq!(check_bytes(&p.build()), Err(ValidationError::Element));
    // A data segment without a memory.
    let mut p = Parts::new();
    p.data(0, &[1]);
    assert_eq!(check_bytes(&p.build()), Err(ValidationError::Data));
    // An offset that is no 32-bit integer.
    let mut p = Parts::new();
    p.memory(1, None);
    p.datas.push(cat(&[&[0x00], &i64_const(0), &[0x0b, 0x00]]));
    assert_eq!(check_bytes(&p.build()), Err(ValidationError::Data));
}

#[test]
fn type_errors_name_the_instruction() {
    // i32.const 1; i64.const 2; i32.add
    assert_eq!(code_error(&[], &[I32], &[0x41, 0x01, 0x42, 0x02, 0x6a]), at(2));
    // i32.add on an empty stack
    assert_eq!(code_error(&[], &[I32], &[0x6a]), at(0));
    // i32.const 1; i32.add
    assert_eq!(code_error(&[], &[I32], &[0x41, 0x01, 0x6a]), at(1));
    // The result is missing, or a value is left over, at the final `end`.
    assert_eq!(code_error(&[], &[I32], &[]), at(0));
    assert_eq!(code_error(&[], &[], &[0x41, 0x01]), at(1));
    assert_eq!(code_error(&[], &[I32], &[0x42, 0x01]), at(1));
    assert_eq!(code_error(&[], &[I32], &[0x41, 0x01, 0x41, 0x02]), at(2));
    // The error is in the second function.
    let mut p = Parts::new();
    p.func(&[], &[], &[], &[]);
    p.func(&[], &[], &[], &[0x01, 0x1a]);
    assert_eq!(check_bytes(&p.build()), Err(ValidationError::Code { func: 1, at: 1 }));
}

#[test]
fn index_errors_in_code() {
    // local.get 1 with one parameter; local.get 2 with one parameter and one local.
    assert_eq!(code_error(&[I32], &[], &[0x20, 0x01, 0x1a]), at(0));
    assert_eq!(check_bytes(&one_function(&[I32], &[], &[(1, I64)], &[0x20, 0x02, 0x1a])), at(0));
    assert_eq!(check_bytes(&one_function(&[I32], &[I64], &[(1, I64)], &[0x20, 0x01])), Ok(()));
    assert_eq!(check_bytes(&one_function(&[I32], &[I32], &[(1, I64)], &[0x20, 0x01])), at(1));
    // global.get without globals; call of a function that does not exist.
    assert_eq!(code_error(&[], &[], &[0x23, 0x00, 0x1a]), at(0));
    assert_eq!(code_error(&[], &[], &[0x10, 0x01]), at(0));
    assert_eq!(code_error(&[], &[], &[0x10, 0x00]), Ok(()));
    // A branch out of the function; br 0 names the function itself.
    assert_eq!(code_error(&[], &[], &[0x0c, 0x01]), at(0));
    assert_eq!(code_error(&[], &[], &[0x0c, 0x00]), Ok(()));
    assert_eq!(code_error(&[], &[], &[0x02, 0x40, 0x0c, 0x01, 0x0b]), Ok(()));
    assert_eq!(code_error(&[], &[], &[0x02, 0x40, 0x0c, 0x02, 0x0b]), at(1));
    // Memory instructions without a memory; call_indirect without a table.
    assert_eq!(code_error(&[], &[], &[0x41, 0x00, 0x28, 0x02, 0x00, 0x1a]), at(1));
    assert_eq!(code_error(&[], &[], &[0x3f, 0x00, 0x1a]), at(0));
    assert_eq!(code_error(&[], &[], &[0x41, 0x00, 0x11, 0x00, 0x00]), at(1));
    // global.set of an immutable global.
    let mut p = Parts::new();
    p.global(I32, false, &i32_const(0));
    p.func(&[], &[], &[], &[0x41, 0x01, 0x24, 0x00]);
    assert_eq!(check_bytes(&p.build()), at(1));
}

#[test]
fn alignment_is_at_most_the_width() {
    let with_memory = |code: &[u8]| {
        let mut p = Parts::new();
        p.memory(1, None);
        p.func(&[], &[], &[], code);
        check_bytes(&p.build())
    };
    assert_eq!(with_memory(&[0x41, 0x00, 0x28, 0x02, 0x00, 0x1a]), Ok(()));
    assert_eq!(with_memory(&[0x41, 0x00, 0x28, 0x03, 0x00, 0x1a]), at(1));
    assert_eq!(with_memory(&[0x41, 0x00, 0x2d, 0x00, 0x00, 0x1a]), Ok(()));
    assert_eq!(with_memory(&[0x41, 0x00, 0x2d, 0x01, 0x00, 0x1a]), at(1));
    assert_eq!(with_memory(&[0x41, 0x00, 0x29, 0x03, 0x00, 0x1a]), Ok(()));
    assert_eq!(with_memory(&[0x41, 0x00, 0x29, 0x04, 0x00, 0x1a]), at(1));
    assert_eq!(with_memory(&[0x41, 0x00, 0x42, 0x00, 0x3d, 0x01, 0x00]), Ok(()));
    assert_eq!(with_memory(&[0x41, 0x00, 0x42, 0x00, 0x3d, 0x02, 0x00]), at(2));
    // The value of a store has the type of the instruction.
    assert_eq!(with_memory(&[0x41, 0x00, 0x41, 0x00, 0x37, 0x03, 0x00]), at(2));
}

#[test]
fn structured_control_validation() {
    // if with a result needs an else.
    assert_eq!(code_error(&[I32], &[I32], &[0x20, 0x00, 0x04, 0x7f, 0x41, 0x01, 0x0b]), at(3));
    assert_eq!(
        code_error(&[I32], &[I32], &[0x20, 0x00, 0x04, 0x7f, 0x41, 0x01, 0x05, 0x41, 0x02, 0x0b]),
        Ok(())
    );
    // Both branches give the result.
    assert_eq!(
        code_error(&[I32], &[I32], &[0x20, 0x00, 0x04, 0x7f, 0x41, 0x01, 0x05, 0x42, 0x02, 0x0b]),
        at(5)
    );
    // else without if.
    assert_eq!(code_error(&[], &[], &[0x02, 0x40, 0x05, 0x0b]), at(1));
    // The condition is a 32-bit integer.
    assert_eq!(code_error(&[I64], &[], &[0x20, 0x00, 0x04, 0x40, 0x0b]), at(1));
    // A block leaves exactly its result.
    assert_eq!(code_error(&[], &[], &[0x02, 0x40, 0x41, 0x01, 0x0b]), at(2));
    assert_eq!(code_error(&[], &[I32], &[0x02, 0x7f, 0x0b]), at(1));
    // A block cannot take operands from outside.
    assert_eq!(code_error(&[], &[], &[0x41, 0x01, 0x02, 0x40, 0x1a, 0x0b]), at(2));
    // A branch to a loop carries nothing; a branch to a block carries its result.
    assert_eq!(code_error(&[], &[I32], &[0x03, 0x7f, 0x0c, 0x00, 0x0b]), Ok(()));
    assert_eq!(code_error(&[], &[I32], &[0x02, 0x7f, 0x0c, 0x00, 0x0b]), at(1));
    assert_eq!(code_error(&[], &[I32], &[0x02, 0x7f, 0x42, 0x01, 0x0c, 0x00, 0x0b]), at(2));
    // The labels of a branch table agree.
    assert_eq!(
        code_error(&[I32], &[I32], &[0x02, 0x7f, 0x41, 0x01, 0x20, 0x00, 0x0e, 0x01, 0x00, 0x01, 0x0b]),
        Ok(())
    );
    assert_eq!(
        code_error(&[I32], &[I32], &[0x02, 0x40, 0x41, 0x01, 0x20, 0x00, 0x0e, 0x01, 0x00, 0x01, 0x0b, 0x41, 0x02]),
        at(3)
    );
    // return takes the result of the function.
    assert_eq!(code_error(&[], &[I32], &[0x0f]), at(0));
    assert_eq!(code_error(&[], &[I32], &[0x41, 0x01, 0x0f]), Ok(()));
}

#[test]
fn unreachable_code_takes_operands_of_any_type() {
    assert_eq!(code_error(&[], &[], &[0x00, 0x6a, 0x1a]), Ok(()));
    assert_eq!(code_error(&[], &[I32], &[0x00]), Ok(()));
    assert_eq!(code_error(&[], &[I64], &[0x00, 0x6a]), at(2));
    assert_eq!(code_error(&[], &[I64], &[0x0c, 0x00, 0x6a]), at(0));
    assert_eq!(code_error(&[], &[I32], &[0x41, 0x01, 0x0f, 0x7c]), at(3));
    // What is pushed after the point still has its type.
    assert_eq!(code_error(&[], &[I32], &[0x00, 0x42, 0x01, 0x6a]), at(2));
    assert_eq!(code_error(&[], &[I32], &[0x00, 0x41, 0x01, 0x6a]), Ok(()));
    // select of two unknown operands, and of operands that differ.
    assert_eq!(code_error(&[], &[], &[0x00, 0x1b, 0x1a]), Ok(()));
    assert_eq!(code_error(&[], &[], &[0x41, 0x01, 0x42, 0x02, 0x41, 0x00, 0x1b, 0x1a]), at(3));
    assert_eq!(code_error(&[], &[I64], &[0x42, 0x01, 0x42, 0x02, 0x41, 0x00, 0x1b]), Ok(()));
    // The operands of an enclosing block stay out of reach.
    assert_eq!(code_error(&[], &[], &[0x41, 0x01, 0x02, 0x40, 0x00, 0x1a, 0x0b, 0x1a]), Ok(()));
}

#[test]
fn calls_are_checked_against_the_signature() {
    let mut p = Parts::new();
    p.func(&[I32, I64], &[I64], &[], &[0x20, 0x01]);
    p.func(&[], &[I64], &[], &[0x41, 0x01, 0x42, 0x02, 0x10, 0x00]);
    assert_eq!(check_bytes(&p.build()), Ok(()));
    let mut p = Parts::new();
    p.func(&[I32, I64], &[I64], &[], &[0x20, 0x01]);
    p.func(&[], &[I64], &[], &[0x42, 0x02, 0x41, 0x01, 0x10, 0x00]);
    assert_eq!(check_bytes(&p.build()), Err(ValidationError::Code { func: 1, at: 2 }));
    let mut p = Parts::new();
    p.func(&[I32, I64], &[I64], &[], &[0x20, 0x01]);
    p.func(&[], &[I32], &[], &[0x41, 0x01, 0x42, 0x02, 0x10, 0x00]);
    assert_eq!(check_bytes(&p.build()), Err(ValidationError::Code { func: 1, at: 3 }));
    let mut p = Parts::new();
    p.table(1, None);
    p.func(&[I32, I64], &[I64], &[], &[0x20, 0x01]);
    p.func(&[], &[I64], &[], &[0x41, 0x01, 0x42, 0x02, 0x41, 0x00, 0x11, 0x00, 0x00]);
    assert_eq!(check_bytes(&p.build()), Ok(()));
    let mut p = Parts::new();
    p.table(1, None);
    p.func(&[], &[], &[], &[0x41, 0x00, 0x11, 0x07, 0x00]);
    assert_eq!(check_bytes(&p.build()), at(1));
}

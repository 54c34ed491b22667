//! The decoder: from bytes to a module draft.
use vstd::prelude::*;
use crate::leb128::{read_u32, read_i32, read_i64};
use crate::types::{
    ValType, BlockType, FuncType, Limits, GlobalType, ConstExpr, Global, ExternKind,
    ImportDesc, Import, Export, Element, Data, Instr, LocalGroup, Code, Draft, views,
    lemma_views_push, lemma_views_empty, empty_draft,
};
use crate::format::{
    u32_at, le_at, valtype_of, valtype_at, blocktype_at, valtypes_from, valtype_vec_at,
    functype_at, limits_at, tabletype_at, globaltype_at, bytes_at, kind_of, importdesc_at,
    import_at, export_at, const_instr_at, constexpr_at, global_at, u32s_from, u32_vec_at,
    element_at, data_at, memarg_at, indexed, plain, opener, instr_at, instrs_from, groups_from,
    code_at, functypes_from, imports_from, tables_from, mems_from, globals_from, exports_from,
    elements_from, codes_from, datas_from, section_at, sections_from, has_magic, has_version,
    decode_spec, DecodeError,
};

verus! {

/// The reader returned what the format gives at `pos`, and moved forward
/// within the input.
pub open spec fn found<T>(r: Option<(T, usize)>, sp: Option<(T, int)>, pos: usize, len: usize)
    -> bool {
    match r {
        Some((x, next)) => sp == Some((x, next as int)) && pos < next <= len,
        None => sp is None,
    }
}

/// As `found`, for an item that is compared by its view.
pub open spec fn found_view<T: View>(
    r: Option<(T, usize)>,
    sp: Option<(T::V, int)>,
    pos: usize,
    len: usize,
) -> bool {
    match r {
        Some((x, next)) => sp == Some((x@, next as int)) && pos < next <= len,
        None => sp is None,
    }
}

/// As `found`, for a vector of items that are compared by their views.
pub open spec fn found_views<T: View>(
    r: Option<(Vec<T>, usize)>,
    sp: Option<(Seq<T::V>, int)>,
    pos: usize,
    len: usize,
) -> bool {
    match r {
        Some((x, next)) => sp == Some((views(x@), next as int)) && pos <= next <= len,
        None => sp is None,
    }
}

fn valtype_of_byte(b: u8) -> (r: Option<ValType>)
    ensures
        r == valtype_of(b),
{
    if b == 0x7F {
        Some(ValType::I32)
    } else if b == 0x7E {
        Some(ValType::I64)
    } else if b == 0x7D {
        Some(ValType::F32)
    } else if b == 0x7C {
        Some(ValType::F64)
    } else {
        None
    }
}

/// Reads an index: an unsigned 32-bit integer.
pub fn read_index(s: &[u8], pos: usize) -> (r: Option<(u32, usize)>)
    ensures
        found(r, u32_at(s@, pos as int), pos, s.len()),
{
    read_u32(s, pos)
}

/// Reads a value type.
pub fn read_valtype(s: &[u8], pos: usize) -> (r: Option<(ValType, usize)>)
    ensures
        found(r, valtype_at(s@, pos as int), pos, s.len()),
{
    if pos < s.len() {
        match valtype_of_byte(s[pos]) {
            Some(t) => Some((t, pos + 1)),
            None => None,
        }
    } else {
        None
    }
}

/// Reads the result type of a block.
pub fn read_blocktype(s: &[u8], pos: usize) -> (r: Option<(BlockType, usize)>)
    ensures
        found(r, blocktype_at(s@, pos as int), pos, s.len()),
{
    if pos < s.len() {
        if s[pos] == 0x40 {
            Some((BlockType::Empty, pos + 1))
        } else {
            match valtype_of_byte(s[pos]) {
                Some(t) => Some((BlockType::Value(t), pos + 1)),
                None => None,
            }
        }
    } else {
        None
    }
}

/// Reads a vector of value types.
pub fn read_valtype_vec(s: &[u8], pos: usize) -> (r: Option<(Vec<ValType>, usize)>)
    ensures
        found_view(r, valtype_vec_at(s@, pos as int), pos, s.len()),
{
    let (n, start) = match read_index(s, pos) {
        Some(x) => x,
        None => return None,
    };
    let mut out: Vec<ValType> = Vec::new();
    let mut p: usize = start;
    let mut i: u32 = 0;
    while i < n
        invariant
            i <= n,
            pos < p <= s.len(),
            u32_at(s@, pos as int) == Some((n, start as int)),
            valtypes_from(s@, start as int, n as nat, Seq::empty()) == valtypes_from(
                s@,
                p as int,
                (n - i) as nat,
                out@,
            ),
        decreases n - i,
    {
        match read_valtype(s, p) {
            None => return None,
            Some((t, next)) => {
                out.push(t);
                p = next;
            },
        }
        i += 1;
    }
    Some((out, p))
}

/// Reads a function type.
pub fn read_functype(s: &[u8], pos: usize) -> (r: Option<(FuncType, usize)>)
    ensures
        found_view(r, functype_at(s@, pos as int), pos, s.len()),
{
    if pos < s.len() && s[pos] == 0x60 {
        let (params, p) = match read_valtype_vec(s, pos + 1) {
            Some(x) => x,
            None => return None,
        };
        let (results, next) = match read_valtype_vec(s, p) {
            Some(x) => x,
            None => return None,
        };
        Some((FuncType { params, results }, next))
    } else {
        None
    }
}

/// Reads limits.
pub fn read_limits(s: &[u8], pos: usize) -> (r: Option<(Limits, usize)>)
    ensures
        found(r, limits_at(s@, pos as int), pos, s.len()),
{
    if pos < s.len() {
        if s[pos] == 0x00 {
            match read_index(s, pos + 1) {
                Some((min, next)) => Some((Limits { min, max: None }, next)),
                None => None,
            }
        } else if s[pos] == 0x01 {
            let (min, p) = match read_index(s, pos + 1) {
                Some(x) => x,
                None => return None,
            };
            match read_index(s, p) {
                Some((max, next)) => Some((Limits { min, max: Some(max) }, next)),
                None => None,
            }
        } else {
            None
        }
    } else {
        None
    }
}

/// Reads a table type.
pub fn read_tabletype(s: &[u8], pos: usize) -> (r: Option<(Limits, usize)>)
    ensures
        found(r, tabletype_at(s@, pos as int), pos, s.len()),
{
    if pos < s.len() && s[pos] == 0x70 {
        read_limits(s, pos + 1)
    } else {
        None
    }
}

/// Reads the type of a global.
pub fn read_globaltype(s: &[u8], pos: usize) -> (r: Option<(GlobalType, usize)>)
    ensures
        found(r, globaltype_at(s@, pos as int), pos, s.len()),
{
    let (ty, p) = match read_valtype(s, pos) {
        Some(x) => x,
        None => return None,
    };
    if p < s.len() && s[p] <= 1 {
        Some((GlobalType { ty, mutable: s[p] == 1 }, p + 1))
    } else {
        None
    }
}

/// Reads a byte vector, as names and data are.
pub fn read_bytes(s: &[u8], pos: usize) -> (r: Option<(Vec<u8>, usize)>)
    ensures
        found_view(r, bytes_at(s@, pos as int), pos, s.len()),
{
    let (n, p) = match read_index(s, pos) {
        Some(x) => x,
        None => return None,
    };
    if n as usize > s.len() - p {
        return None;
    }
    let end: usize = p + n as usize;
    let mut out: Vec<u8> = Vec::new();
    let mut i: usize = p;
    while i < end
        invariant
            p <= i <= end <= s.len(),
            out@ == s@.subrange(p as int, i as int),
        decreases end - i,
    {
        out.push(s[i]);
        i += 1;
        assert(out@ =~= s@.subrange(p as int, i as int));
    }
    Some((out, end))
}

fn kind_of_byte(b: u8) -> (r: Option<ExternKind>)
    ensures
        r == kind_of(b),
{
    if b == 0 {
        Some(ExternKind::Func)
    } else if b == 1 {
        Some(ExternKind::Table)
    } else if b == 2 {
        Some(ExternKind::Memory)
    } else if b == 3 {
        Some(ExternKind::Global)
    } else {
        None
    }
}

/// Reads what an import asks for.
pub fn read_importdesc(s: &[u8], pos: usize) -> (r: Option<(ImportDesc, usize)>)
    ensures
        found(r, importdesc_at(s@, pos as int), pos, s.len()),
{
    if pos < s.len() {
        if s[pos] == 0 {
            match read_index(s, pos + 1) {
                Some((t, next)) => Some((ImportDesc::Func(t), next)),
                None => None,
            }
        } else if s[pos] == 1 {
            match read_tabletype(s, pos + 1) {
                Some((l, next)) => Some((ImportDesc::Table(l), next)),
                None => None,
            }
        } else if s[pos] == 2 {
            match read_limits(s, pos + 1) {
                Some((l, next)) => Some((ImportDesc::Memory(l), next)),
                None => None,
            }
        } else if s[pos] == 3 {
            match read_globaltype(s, pos + 1) {
                Some((g, next)) => Some((ImportDesc::Global(g), next)),
                None => None,
            }
        } else {
            None
        }
    } else {
        None
    }
}

/// Reads an import.
pub fn read_import(s: &[u8], pos: usize) -> (r: Option<(Import, usize)>)
    ensures
        found_view(r, import_at(s@, pos as int), pos, s.len()),
{
    let (module, p) = match read_bytes(s, pos) {
        Some(x) => x,
        None => return None,
    };
    let (name, q) = match read_bytes(s, p) {
        Some(x) => x,
        None => return None,
    };
    match read_importdesc(s, q) {
        Some((desc, next)) => Some((Import { module, name, desc }, next)),
        None => None,
    }
}

/// Reads an export.
pub fn read_export(s: &[u8], pos: usize) -> (r: Option<(Export, usize)>)
    ensures
        found_view(r, export_at(s@, pos as int), pos, s.len()),
{
    let (name, p) = match read_bytes(s, pos) {
        Some(x) => x,
        None => return None,
    };
    if p < s.len() {
        let kind = match kind_of_byte(s[p]) {
            Some(k) => k,
            None => return None,
        };
        match read_index(s, p + 1) {
            Some((index, next)) => Some((Export { name, kind, index }, next)),
            None => None,
        }
    } else {
        None
    }
}

/// Reads four bytes as a little-endian integer.
pub fn read_le32(s: &[u8], pos: usize) -> (r: u32)
    requires
        pos + 4 <= s.len(),
    ensures
        r == le_at(s@, pos as int, 4),
{
    proof {
        reveal_with_fuel(le_at, 5);
    }
    s[pos] as u32 + 256 * (s[pos + 1] as u32 + 256 * (s[pos + 2] as u32 + 256 * (s[pos
        + 3] as u32)))
}

/// Reads eight bytes as a little-endian integer.
pub fn read_le64(s: &[u8], pos: usize) -> (r: u64)
    requires
        pos + 8 <= s.len(),
    ensures
        r == le_at(s@, pos as int, 8),
{
    proof {
        reveal_with_fuel(le_at, 9);
    }
    s[pos] as u64 + 256 * (s[pos + 1] as u64 + 256 * (s[pos + 2] as u64 + 256 * (s[pos
        + 3] as u64 + 256 * (s[pos + 4] as u64 + 256 * (s[pos + 5] as u64 + 256 * (s[pos
        + 6] as u64 + 256 * (s[pos + 7] as u64)))))))
}

/// Reads the instruction of a constant expression.
pub fn read_const_instr(s: &[u8], pos: usize) -> (r: Option<(ConstExpr, usize)>)
    ensures
        found(r, const_instr_at(s@, pos as int), pos, s.len()),
{
    if pos < s.len() {
        let op: u8 = s[pos];
        if op == 0x41 {
            match read_i32(s, pos + 1) {
                Some((v, next)) => Some((ConstExpr::I32(v), next)),
                None => None,
            }
        } else if op == 0x42 {
            match read_i64(s, pos + 1) {
                Some((v, next)) => Some((ConstExpr::I64(v), next)),
                None => None,
            }
        } else if op == 0x43 {
            if s.len() - pos >= 5 {
                Some((ConstExpr::F32(read_le32(s, pos + 1)), pos + 5))
            } else {
                None
            }
        } else if op == 0x44 {
            if s.len() - pos >= 9 {
                Some((ConstExpr::F64(read_le64(s, pos + 1)), pos + 9))
            } else {
                None
            }
        } else if op == 0x23 {
            match read_index(s, pos + 1) {
                Some((g, next)) => Some((ConstExpr::GlobalGet(g), next)),
                None => None,
            }
        } else {
            None
        }
    } else {
        None
    }
}

/// Reads a constant expression.
pub fn read_constexpr(s: &[u8], pos: usize) -> (r: Option<(ConstExpr, usize)>)
    ensures
        found(r, constexpr_at(s@, pos as int), pos, s.len()),
{
    let (e, p) = match read_const_instr(s, pos) {
        Some(x) => x,
        None => return None,
    };
    if p < s.len() && s[p] == 0x0B {
        Some((e, p + 1))
    } else {
        None
    }
}

/// Reads a global.
pub fn read_global(s: &[u8], pos: usize) -> (r: Option<(Global, usize)>)
    ensures
        found(r, global_at(s@, pos as int), pos, s.len()),
{
    let (ty, p) = match read_globaltype(s, pos) {
        Some(x) => x,
        None => return None,
    };
    match read_constexpr(s, p) {
        Some((init, next)) => Some((Global { ty, init }, next)),
        None => None,
    }
}

/// Reads `n` unsigned 32-bit integers.
pub fn read_u32s(s: &[u8], pos: usize, n: u64) -> (r: Option<(Vec<u32>, usize)>)
    requires
        pos <= s.len(),
    ensures
        match r {
            Some((v, next)) => u32s_from(s@, pos as int, n as nat, Seq::empty()) == Some(
                (v@, next as int),
            ) && pos <= next <= s.len(),
            None => u32s_from(s@, pos as int, n as nat, Seq::empty()) is None,
        },
{
    let mut out: Vec<u32> = Vec::new();
    let mut p: usize = pos;
    let mut i: u64 = 0;
    while i < n
        invariant
            i <= n,
            pos <= p <= s.len(),
            u32s_from(s@, pos as int, n as nat, Seq::empty()) == u32s_from(
                s@,
                p as int,
                (n - i) as nat,
                out@,
            ),
        decreases n - i,
    {
        match read_index(s, p) {
            None => return None,
            Some((v, next)) => {
                out.push(v);
                p = next;
            },
        }
        i += 1;
    }
    Some((out, p))
}

/// Reads a vector of unsigned 32-bit integers.
pub fn read_u32_vec(s: &[u8], pos: usize) -> (r: Option<(Vec<u32>, usize)>)
    ensures
        found_view(r, u32_vec_at(s@, pos as int), pos, s.len()),
{
    let (n, p) = match read_index(s, pos) {
        Some(x) => x,
        None => return None,
    };
    read_u32s(s, p, n as u64)
}

/// Reads an element segment.
pub fn read_element(s: &[u8], pos: usize) -> (r: Option<(Element, usize)>)
    ensures
        found_view(r, element_at(s@, pos as int), pos, s.len()),
{
    let (table, p) = match read_index(s, pos) {
        Some(x) => x,
        None => return None,
    };
    let (offset, q) = match read_constexpr(s, p) {
        Some(x) => x,
        None => return None,
    };
    match read_u32_vec(s, q) {
        Some((init, next)) => Some((Element { table, offset, init }, next)),
        None => None,
    }
}

/// Reads a data segment.
pub fn read_data(s: &[u8], pos: usize) -> (r: Option<(Data, usize)>)
    ensures
        found_view(r, data_at(s@, pos as int), pos, s.len()),
{
    let (memory, p) = match read_index(s, pos) {
        Some(x) => x,
        None => return None,
    };
    let (offset, q) = match read_constexpr(s, p) {
        Some(x) => x,
        None => return None,
    };
    match read_bytes(s, q) {
        Some((init, next)) => Some((Data { memory, offset, init }, next)),
        None => None,
    }
}

/// Reads the alignment and offset of a memory instruction.
pub fn read_memarg(s: &[u8], pos: usize) -> (r: Option<((u32, u32), usize)>)
    ensures
        found(r, memarg_at(s@, pos as int), pos, s.len()),
{
    let (align, p) = match read_index(s, pos) {
        Some(x) => x,
        None => return None,
    };
    match read_index(s, p) {
        Some((offset, next)) => Some(((align, offset), next)),
        None => None,
    }
}

fn indexed_instr(op: u8, x: u32) -> (r: Option<Instr>)
    ensures
        r == indexed(op, x),
{
    if op == 0x0C {
        Some(Instr::Br(x))
    } else if op == 0x0D {
        Some(Instr::BrIf(x))
    } else if op == 0x10 {
        Some(Instr::Call(x))
    } else if op == 0x20 {
        Some(Instr::LocalGet(x))
    } else if op == 0x21 {
        Some(Instr::LocalSet(x))
    } else if op == 0x22 {
        Some(Instr::LocalTee(x))
    } else if op == 0x23 {
        Some(Instr::GlobalGet(x))
    } else if op == 0x24 {
        Some(Instr::GlobalSet(x))
    } else {
        None
    }
}

fn plain_instr(op: u8) -> (r: Option<Instr>)
    ensures
        r == plain(op),
{
    if op == 0x00 {
        Some(Instr::Unreachable)
    } else if op == 0x01 {
        Some(Instr::Nop)
    } else if op == 0x05 {
        Some(Instr::Else)
    } else if op == 0x0B {
        Some(Instr::End)
    } else if op == 0x0F {
        Some(Instr::Return)
    } else if op == 0x1A {
        Some(Instr::Drop)
    } else if op == 0x1B {
        Some(Instr::Select)
    } else if 0x45 <= op && op <= 0xBF {
        Some(Instr::Numeric(op))
    } else {
        None
    }
}

fn opener_instr(op: u8, bt: BlockType) -> (r: Option<Instr>)
    ensures
        r == opener(op, bt),
{
    if op == 0x02 {
        Some(Instr::Block(bt))
    } else if op == 0x03 {
        Some(Instr::Loop(bt))
    } else if op == 0x04 {
        Some(Instr::If(bt))
    } else {
        None
    }
}

/// Reads the instruction at `pos`. The labels of a branch table are
/// returned apart, for a label pool that holds `pool` entries so far.
#[verifier::rlimit(50)]
pub fn read_instr(s: &[u8], pos: usize, pool: usize) -> (r: Option<(Instr, Vec<u32>, usize)>)
    ensures
        match r {
            Some((i, more, next)) => instr_at(s@, pos as int, pool as int) == Some(
                (i, more@, next as int),
            ) && pos < next <= s.len(),
            None => instr_at(s@, pos as int, pool as int) is None,
        },
{
    if pos >= s.len() {
        return None;
    }
    let op: u8 = s[pos];
    let none: Vec<u32> = Vec::new();
    if let Some(i) = plain_instr(op) {
        Some((i, none, pos + 1))
    } else if op == 0x02 || op == 0x03 || op == 0x04 {
        match read_blocktype(s, pos + 1) {
            Some((bt, next)) => match opener_instr(op, bt) {
                Some(i) => Some((i, none, next)),
                None => None,
            },
            None => None,
        }
    } else if indexed_instr(op, 0).is_some() {
        match read_index(s, pos + 1) {
            Some((x, next)) => match indexed_instr(op, x) {
                Some(i) => Some((i, none, next)),
                None => None,
            },
            None => None,
        }
    } else if op == 0x0E {
        let (n, p) = match read_index(s, pos + 1) {
            Some(x) => x,
            None => return None,
        };
        let (labels, next) = match read_u32s(s, p, n as u64 + 1) {
            Some(x) => x,
            None => return None,
        };
        if pool <= u32::MAX as usize && pool as u64 + n as u64 + 1 <= u32::MAX as u64 {
            Some((Instr::BrTable { first: pool as u32, count: n }, labels, next))
        } else {
            None
        }
    } else if op == 0x11 {
        let (t, p) = match read_index(s, pos + 1) {
            Some(x) => x,
            None => return None,
        };
        if p < s.len() && s[p] == 0 {
            Some((Instr::CallIndirect(t), none, p + 1))
        } else {
            None
        }
    } else if 0x28 <= op && op <= 0x3E {
        match read_memarg(s, pos + 1) {
            Some(((align, offset), next)) => if op <= 0x35 {
                Some((Instr::Load { op, align, offset }, none, next))
            } else {
                Some((Instr::Store { op, align, offset }, none, next))
            },
            None => None,
        }
    } else if op == 0x3F || op == 0x40 {
        if s.len() - pos >= 2 && s[pos + 1] == 0 {
            Some(
                (
                    if op == 0x3F {
                        Instr::MemorySize
                    } else {
                        Instr::MemoryGrow
                    },
                    none,
                    pos + 2,
                ),
            )
        } else {
            None
        }
    } else if op == 0x41 {
        match read_i32(s, pos + 1) {
            Some((v, next)) => Some((Instr::I32Const(v), none, next)),
            None => None,
        }
    } else if op == 0x42 {
        match read_i64(s, pos + 1) {
            Some((v, next)) => Some((Instr::I64Const(v), none, next)),
            None => None,
        }
    } else if op == 0x43 {
        if s.len() - pos >= 5 {
            Some((Instr::F32Const(read_le32(s, pos + 1)), none, pos + 5))
        } else {
            None
        }
    } else if op == 0x44 {
        if s.len() - pos >= 9 {
            Some((Instr::F64Const(read_le64(s, pos + 1)), none, pos + 9))
        } else {
            None
        }
    } else {
        None
    }
}

/// Reads the instructions of a function body that ends at `end`.
#[verifier::rlimit(50)]
pub fn read_instrs(s: &[u8], pos: usize, end: usize) -> (r: Option<(Vec<Instr>, Vec<u32>)>)
    requires
        pos <= end <= s.len(),
    ensures
        match r {
            Some((instrs, labels)) => instrs_from(
                s@,
                pos as int,
                end as int,
                1,
                Seq::empty(),
                Seq::empty(),
            ) == Some((instrs@, labels@)),
            None => instrs_from(s@, pos as int, end as int, 1, Seq::empty(), Seq::empty())
                is None,
        },
{
    let mut instrs: Vec<Instr> = Vec::new();
    let mut labels: Vec<u32> = Vec::new();
    let mut p: usize = pos;
    let mut depth: usize = 1;
    loop
        invariant
            pos <= p <= end <= s.len(),
            1 <= depth <= p - pos + 1,
            instrs_from(s@, pos as int, end as int, 1, Seq::empty(), Seq::empty())
                == instrs_from(s@, p as int, end as int, depth as nat, instrs@, labels@),
        decreases end - p,
    {
        let (i, mut more, next) = match read_instr(s, p, labels.len()) {
            Some(x) => x,
            None => return None,
        };
        if next > end {
            return None;
        }
        instrs.push(i);
        labels.append(&mut more);
        match i {
            Instr::End => {
                if depth <= 1 {
                    if next == end {
                        return Some((instrs, labels));
                    } else {
                        return None;
                    }
                }
                depth = depth - 1;
            },
            Instr::Block(_) | Instr::Loop(_) | Instr::If(_) => {
                depth = depth + 1;
            },
            _ => {},
        }
        p = next;
    }
}

/// Reads the groups of locals of a function body.
pub fn read_locals(s: &[u8], pos: usize) -> (r: Option<(Vec<LocalGroup>, usize)>)
    ensures
        match r {
            Some((v, next)) => u32_at(s@, pos as int) matches Some((n, q)) && groups_from(
                s@,
                q,
                n as nat,
                Seq::empty(),
                0,
            ) == Some((v@, next as int)) && pos < next <= s.len(),
            None => u32_at(s@, pos as int) matches Some((n, q)) ==> groups_from(
                s@,
                q,
                n as nat,
                Seq::empty(),
                0,
            ) is None,
        },
{
    let (n, start) = match read_index(s, pos) {
        Some(x) => x,
        None => return None,
    };
    let mut out: Vec<LocalGroup> = Vec::new();
    let mut p: usize = start;
    let mut total: u64 = 0;
    let mut i: u32 = 0;
    while i < n
        invariant
            i <= n,
            pos < p <= s.len(),
            total <= u32::MAX,
            u32_at(s@, pos as int) == Some((n, start as int)),
            groups_from(s@, start as int, n as nat, Seq::empty(), 0) == groups_from(
                s@,
                p as int,
                (n - i) as nat,
                out@,
                total as int,
            ),
        decreases n - i,
    {
        let (count, q) = match read_index(s, p) {
            Some(x) => x,
            None => return None,
        };
        let (ty, next) = match read_valtype(s, q) {
            Some(x) => x,
            None => return None,
        };
        if total + count as u64 > u32::MAX as u64 {
            return None;
        }
        out.push(LocalGroup { count, ty });
        total = total + count as u64;
        p = next;
        i += 1;
    }
    Some((out, p))
}

/// Reads a function body.
pub fn read_code(s: &[u8], pos: usize) -> (r: Option<(Code, usize)>)
    ensures
        found_view(r, code_at(s@, pos as int), pos, s.len()),
{
    let (size, p) = match read_index(s, pos) {
        Some(x) => x,
        None => return None,
    };
    if size as usize > s.len() - p {
        return None;
    }
    let end: usize = p + size as usize;
    let (locals, q) = match read_locals(s, p) {
        Some(x) => x,
        None => return None,
    };
    if q > end {
        proof {
            lemma_instrs_from_bounds(s@, q as int, end as int, 1, Seq::empty(), Seq::empty());
        }
        return None;
    }
    match read_instrs(s, q, end) {
        Some((instrs, labels)) => Some((Code { locals, instrs, labels }, end)),
        None => None,
    }
}

/// Instructions are found only where the body has room for them.
pub proof fn lemma_instrs_from_bounds(
    s: Seq<u8>,
    pos: int,
    end: int,
    depth: nat,
    instrs: Seq<Instr>,
    labels: Seq<u32>,
)
    ensures
        instrs_from(s, pos, end, depth, instrs, labels) is Some ==> pos < end,
{
}

/// Reads `n` function types.
pub fn read_functypes(s: &[u8], pos: usize, n: u32) -> (r: Option<(Vec<FuncType>, usize)>)
    requires
        pos <= s.len(),
    ensures
        found_views(r, functypes_from(s@, pos as int, n as nat, Seq::empty()), pos, s.len()),
{
    let mut out: Vec<FuncType> = Vec::new();
    let mut p: usize = pos;
    let mut i: u32 = 0;
    proof {
        lemma_views_empty::<FuncType>();
    }
    while i < n
        invariant
            i <= n,
            pos <= p <= s.len(),
            functypes_from(s@, pos as int, n as nat, Seq::empty()) == functypes_from(
                s@,
                p as int,
                (n - i) as nat,
                views(out@),
            ),
        decreases n - i,
    {
        match read_functype(s, p) {
            None => return None,
            Some((x, next)) => {
                proof {
                    lemma_views_push(out@, x);
                }
                out.push(x);
                p = next;
            },
        }
        i += 1;
    }
    Some((out, p))
}

/// Reads `n` imports.
pub fn read_imports(s: &[u8], pos: usize, n: u32) -> (r: Option<(Vec<Import>, usize)>)
    requires
        pos <= s.len(),
    ensures
        found_views(r, imports_from(s@, pos as int, n as nat, Seq::empty()), pos, s.len()),
{
    let mut out: Vec<Import> = Vec::new();
    let mut p: usize = pos;
    let mut i: u32 = 0;
    proof {
        lemma_views_empty::<Import>();
    }
    while i < n
        invariant
            i <= n,
            pos <= p <= s.len(),
            imports_from(s@, pos as int, n as nat, Seq::empty()) == imports_from(
                s@,
                p as int,
                (n - i) as nat,
                views(out@),
            ),
        decreases n - i,
    {
        match read_import(s, p) {
            None => return None,
            Some((x, next)) => {
                proof {
                    lemma_views_push(out@, x);
                }
                out.push(x);
                p = next;
            },
        }
        i += 1;
    }
    Some((out, p))
}

/// Reads `n` exports.
pub fn read_exports(s: &[u8], pos: usize, n: u32) -> (r: Option<(Vec<Export>, usize)>)
    requires
        pos <= s.len(),
    ensures
        found_views(r, exports_from(s@, pos as int, n as nat, Seq::empty()), pos, s.len()),
{
    let mut out: Vec<Export> = Vec::new();
    let mut p: usize = pos;
    let mut i: u32 = 0;
    proof {
        lemma_views_empty::<Export>();
    }
    while i < n
        invariant
            i <= n,
            pos <= p <= s.len(),
            exports_from(s@, pos as int, n as nat, Seq::empty()) == exports_from(
                s@,
                p as int,
                (n - i) as nat,
                views(out@),
            ),
        decreases n - i,
    {
        match read_export(s, p) {
            None => return None,
            Some((x, next)) => {
                proof {
                    lemma_views_push(out@, x);
                }
                out.push(x);
                p = next;
            },
        }
        i += 1;
    }
    Some((out, p))
}

/// Reads `n` element segments.
pub fn read_elements(s: &[u8], pos: usize, n: u32) -> (r: Option<(Vec<Element>, usize)>)
    requires
        pos <= s.len(),
    ensures
        found_views(r, elements_from(s@, pos as int, n as nat, Seq::empty()), pos, s.len()),
{
    let mut out: Vec<Element> = Vec::new();
    let mut p: usize = pos;
    let mut i: u32 = 0;
    proof {
        lemma_views_empty::<Element>();
    }
    while i < n
        invariant
            i <= n,
            pos <= p <= s.len(),
            elements_from(s@, pos as int, n as nat, Seq::empty()) == elements_from(
                s@,
                p as int,
                (n - i) as nat,
                views(out@),
            ),
        decreases n - i,
    {
        match read_element(s, p) {
            None => return None,
            Some((x, next)) => {
                proof {
                    lemma_views_push(out@, x);
                }
                out.push(x);
                p = next;
            },
        }
        i += 1;
    }
    Some((out, p))
}

/// Reads `n` function bodies.
pub fn read_codes(s: &[u8], pos: usize, n: u32) -> (r: Option<(Vec<Code>, usize)>)
    requires
        pos <= s.len(),
    ensures
        found_views(r, codes_from(s@, pos as int, n as nat, Seq::empty()), pos, s.len()),
{
    let mut out: Vec<Code> = Vec::new();
    let mut p: usize = pos;
    let mut i: u32 = 0;
    proof {
        lemma_views_empty::<Code>();
    }
    while i < n
        invariant
            i <= n,
            pos <= p <= s.len(),
            codes_from(s@, pos as int, n as nat, Seq::empty()) == codes_from(
                s@,
                p as int,
                (n - i) as nat,
                views(out@),
            ),
        decreases n - i,
    {
        match read_code(s, p) {
            None => return None,
            Some((x, next)) => {
                proof {
                    lemma_views_push(out@, x);
                }
                out.push(x);
                p = next;
            },
        }
        i += 1;
    }
    Some((out, p))
}

/// Reads `n` data segments.
pub fn read_datas(s: &[u8], pos: usize, n: u32) -> (r: Option<(Vec<Data>, usize)>)
    requires
        pos <= s.len(),
    ensures
        found_views(r, datas_from(s@, pos as int, n as nat, Seq::empty()), pos, s.len()),
{
    let mut out: Vec<Data> = Vec::new();
    let mut p: usize = pos;
    let mut i: u32 = 0;
    proof {
        lemma_views_empty::<Data>();
    }
    while i < n
        invariant
            i <= n,
            pos <= p <= s.len(),
            datas_from(s@, pos as int, n as nat, Seq::empty()) == datas_from(
                s@,
                p as int,
                (n - i) as nat,
                views(out@),
            ),
        decreases n - i,
    {
        match read_data(s, p) {
            None => return None,
            Some((x, next)) => {
                proof {
                    lemma_views_push(out@, x);
                }
                out.push(x);
                p = next;
            },
        }
        i += 1;
    }
    Some((out, p))
}

/// Reads `n` table types.
pub fn read_tables(s: &[u8], pos: usize, n: u32) -> (r: Option<(Vec<Limits>, usize)>)
    requires
        pos <= s.len(),
    ensures
        match r {
            Some((v, next)) => tables_from(s@, pos as int, n as nat, Seq::empty()) == Some(
                (v@, next as int),
            ) && pos <= next <= s.len(),
            None => tables_from(s@, pos as int, n as nat, Seq::empty()) is None,
        },
{
    let mut out: Vec<Limits> = Vec::new();
    let mut p: usize = pos;
    let mut i: u32 = 0;
    while i < n
        invariant
            i <= n,
            pos <= p <= s.len(),
            tables_from(s@, pos as int, n as nat, Seq::empty()) == tables_from(
                s@,
                p as int,
                (n - i) as nat,
                out@,
            ),
        decreases n - i,
    {
        match read_tabletype(s, p) {
            None => return None,
            Some((x, next)) => {
                out.push(x);
                p = next;
            },
        }
        i += 1;
    }
    Some((out, p))
}

/// Reads `n` memory types.
pub fn read_mems(s: &[u8], pos: usize, n: u32) -> (r: Option<(Vec<Limits>, usize)>)
    requires
        pos <= s.len(),
    ensures
        match r {
            Some((v, next)) => mems_from(s@, pos as int, n as nat, Seq::empty()) == Some(
                (v@, next as int),
            ) && pos <= next <= s.len(),
            None => mems_from(s@, pos as int, n as nat, Seq::empty()) is None,
        },
{
    let mut out: Vec<Limits> = Vec::new();
    let mut p: usize = pos;
    let mut i: u32 = 0;
    while i < n
        invariant
            i <= n,
            pos <= p <= s.len(),
            mems_from(s@, pos as int, n as nat, Seq::empty()) == mems_from(
                s@,
                p as int,
                (n - i) as nat,
                out@,
            ),
        decreases n - i,
    {
        match read_limits(s, p) {
            None => return None,
            Some((x, next)) => {
                out.push(x);
                p = next;
            },
        }
        i += 1;
    }
    Some((out, p))
}

/// Reads `n` globals.
pub fn read_globals(s: &[u8], pos: usize, n: u32) -> (r: Option<(Vec<Global>, usize)>)
    requires
        pos <= s.len(),
    ensures
        match r {
            Some((v, next)) => globals_from(s@, pos as int, n as nat, Seq::empty()) == Some(
                (v@, next as int),
            ) && pos <= next <= s.len(),
            None => globals_from(s@, pos as int, n as nat, Seq::empty()) is None,
        },
{
    let mut out: Vec<Global> = Vec::new();
    let mut p: usize = pos;
    let mut i: u32 = 0;
    while i < n
        invariant
            i <= n,
            pos <= p <= s.len(),
            globals_from(s@, pos as int, n as nat, Seq::empty()) == globals_from(
                s@,
                p as int,
                (n - i) as nat,
                out@,
            ),
        decreases n - i,
    {
        match read_global(s, p) {
            None => return None,
            Some((x, next)) => {
                out.push(x);
                p = next;
            },
        }
        i += 1;
    }
    Some((out, p))
}

/// Reads the payload of the section `id` at `pos` into the draft.
#[verifier::rlimit(50)]
pub fn read_section(s: &[u8], id: u8, pos: usize, d: Draft) -> (r: Option<(Draft, usize)>)
    ensures
        match r {
            Some((d2, next)) => section_at(s@, id, pos as int, d@) == Some((d2@, next as int))
                && pos < next <= s.len(),
            None => section_at(s@, id, pos as int, d@) is None,
        },
{
    let mut d = d;
    let (n, p) = match read_index(s, pos) {
        Some(x) => x,
        None => return None,
    };
    if id == 8 {
        d.start = Some(n);
        Some((d, p))
    } else if id == 1 {
        match read_functypes(s, p, n) {
            Some((v, next)) => {
                d.types = v;
                Some((d, next))
            },
            None => None,
        }
    } else if id == 2 {
        match read_imports(s, p, n) {
            Some((v, next)) => {
                d.imports = v;
                Some((d, next))
            },
            None => None,
        }
    } else if id == 3 {
        match read_u32s(s, p, n as u64) {
            Some((v, next)) => {
                d.funcs = v;
                Some((d, next))
            },
            None => None,
        }
    } else if id == 4 {
        match read_tables(s, p, n) {
            Some((v, next)) => {
                d.tables = v;
                Some((d, next))
            },
            None => None,
        }
    } else if id == 5 {
        match read_mems(s, p, n) {
            Some((v, next)) => {
                d.mems = v;
                Some((d, next))
            },
            None => None,
        }
    } else if id == 6 {
        match read_globals(s, p, n) {
            Some((v, next)) => {
                d.globals = v;
                Some((d, next))
            },
            None => None,
        }
    } else if id == 7 {
        match read_exports(s, p, n) {
            Some((v, next)) => {
                d.exports = v;
                Some((d, next))
            },
            None => None,
        }
    } else if id == 9 {
        match read_elements(s, p, n) {
            Some((v, next)) => {
                d.elems = v;
                Some((d, next))
            },
            None => None,
        }
    } else if id == 10 {
        match read_codes(s, p, n) {
            Some((v, next)) => {
                d.codes = v;
                Some((d, next))
            },
            None => None,
        }
    } else if id == 11 {
        match read_datas(s, p, n) {
            Some((v, next)) => {
                d.datas = v;
                Some((d, next))
            },
            None => None,
        }
    } else {
        None
    }
}

/// A draft without any section.
pub fn new_draft() -> (d: Draft)
    ensures
        d@ == empty_draft(),
{
    proof {
        lemma_views_empty::<FuncType>();
        lemma_views_empty::<Import>();
        lemma_views_empty::<Export>();
        lemma_views_empty::<Element>();
        lemma_views_empty::<Code>();
        lemma_views_empty::<Data>();
    }
    Draft {
        types: Vec::new(),
        imports: Vec::new(),
        funcs: Vec::new(),
        tables: Vec::new(),
        mems: Vec::new(),
        globals: Vec::new(),
        exports: Vec::new(),
        start: None,
        elems: Vec::new(),
        codes: Vec::new(),
        datas: Vec::new(),
    }
}

/// Decodes a binary module. The whole input has to be consumed.
#[verifier::rlimit(50)]
pub fn decode(s: &[u8]) -> (r: Result<Draft, DecodeError>)
    ensures
        match r {
            Ok(d) => decode_spec(s@) == Ok::<_, DecodeError>(d@),
            Err(e) => decode_spec(s@) == Err::<crate::types::DraftView, _>(e),
        },
{
    if s.len() < 8 {
        return Err(DecodeError::UnexpectedEnd);
    }
    if !(s[0] == 0x00 && s[1] == 0x61 && s[2] == 0x73 && s[3] == 0x6d) {
        return Err(DecodeError::BadMagic);
    }
    if !(s[4] == 0x01 && s[5] == 0x00 && s[6] == 0x00 && s[7] == 0x00) {
        return Err(DecodeError::BadVersion);
    }
    let mut d: Draft = new_draft();
    let mut pos: usize = 8;
    let mut last: u8 = 0;
    while pos < s.len()
        invariant
            8 <= pos <= s.len(),
            last <= 11,
            has_magic(s@),
            has_version(s@),
            sections_from(s@, 8, 0, empty_draft()) == sections_from(
                s@,
                pos as int,
                last as int,
                d@,
            ),
        decreases s.len() - pos,
    {
        let id: u8 = s[pos];
        let (size, p) = match read_index(s, pos + 1) {
            Some(x) => x,
            None => return Err(DecodeError::Malformed),
        };
        if size as usize > s.len() - p {
            return Err(DecodeError::Malformed);
        }
        let end: usize = p + size as usize;
        if id == 0 {
            match read_bytes(s, p) {
                Some((name, q)) => {
                    if q > end {
                        return Err(DecodeError::Malformed);
                    }
                },
                None => return Err(DecodeError::Malformed),
            }
        } else if id > 11 || id <= last {
            return Err(DecodeError::Malformed);
        } else {
            match read_section(s, id, p, d) {
                Some((d2, next)) => {
                    if next != end {
                        return Err(DecodeError::Malformed);
                    }
                    d = d2;
                    last = id;
                },
                None => return Err(DecodeError::Malformed),
            }
        }
        pos = end;
    }
    if d.funcs.len() == d.codes.len() {
        Ok(d)
    } else {
        Err(DecodeError::Malformed)
    }
}

} // verus!

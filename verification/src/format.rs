//! The binary module format, as functions from a byte sequence and a
//! position to the decoded item and the position after it.
use vstd::prelude::*;
use crate::leb128::{uleb, sleb};
use crate::types::{
    ValType, BlockType, FuncTypeView, Limits, GlobalType, ConstExpr, Global, ExternKind,
    ImportDesc, ImportView, ExportView, ElementView, DataView, Instr, LocalGroup, CodeView,
    DraftView, empty_draft,
};

verus! {

/// The unsigned 32-bit integer at `pos`.
pub open spec fn u32_at(s: Seq<u8>, pos: int) -> Option<(u32, int)> {
    match uleb(s, pos, 32) {
        Some((v, next)) => Some((v as u32, next)),
        None => None,
    }
}

/// The little-endian integer held by the `width` bytes at `pos`.
pub open spec fn le_at(s: Seq<u8>, pos: int, width: int) -> int
    decreases width,
{
    if width <= 0 {
        0
    } else {
        s[pos] as int + 256 * le_at(s, pos + 1, width - 1)
    }
}

/// The value type that a byte stands for.
pub open spec fn valtype_of(b: u8) -> Option<ValType> {
    if b == 0x7F {
        Some(ValType::I32)
    } else if b == 0x7E {
        Some(ValType::I64)
    } else if b == 0x7D {
        Some(ValType::F32)
    } else if b == 0x7C {
        Some(ValType::F64)
    } else {
        None
    }
}

/// The value type at `pos`.
pub open spec fn valtype_at(s: Seq<u8>, pos: int) -> Option<(ValType, int)> {
    if 0 <= pos < s.len() {
        match valtype_of(s[pos]) {
            Some(t) => Some((t, pos + 1)),
            None => None,
        }
    } else {
        None
    }
}

/// The result type of a block: 0x40 for none, or a value type.
pub open spec fn blocktype_at(s: Seq<u8>, pos: int) -> Option<(BlockType, int)> {
    if 0 <= pos < s.len() {
        if s[pos] == 0x40 {
            Some((BlockType::Empty, pos + 1))
        } else {
            match valtype_of(s[pos]) {
                Some(t) => Some((BlockType::Value(t), pos + 1)),
                None => None,
            }
        }
    } else {
        None
    }
}

/// `n` more value types, appended to `acc`.
pub open spec fn valtypes_from(s: Seq<u8>, pos: int, n: nat, acc: Seq<ValType>) -> Option<
    (Seq<ValType>, int),
>
    decreases n,
{
    if n == 0 {
        Some((acc, pos))
    } else {
        match valtype_at(s, pos) {
            Some((t, next)) => valtypes_from(s, next, (n - 1) as nat, acc.push(t)),
            None => None,
        }
    }
}

/// A vector of value types: the count, then the types.
pub open spec fn valtype_vec_at(s: Seq<u8>, pos: int) -> Option<(Seq<ValType>, int)> {
    match u32_at(s, pos) {
        Some((n, next)) => valtypes_from(s, next, n as nat, Seq::empty()),
        None => None,
    }
}

/// A function type: 0x60, the parameters, the results.
pub open spec fn functype_at(s: Seq<u8>, pos: int) -> Option<(FuncTypeView, int)> {
    if 0 <= pos < s.len() && s[pos] == 0x60 {
        match valtype_vec_at(s, pos + 1) {
            Some((params, p)) => match valtype_vec_at(s, p) {
                Some((results, next)) => Some((FuncTypeView { params, results }, next)),
                None => None,
            },
            None => None,
        }
    } else {
        None
    }
}

/// Limits: a flag, the minimum and, with the flag set, the maximum.
pub open spec fn limits_at(s: Seq<u8>, pos: int) -> Option<(Limits, int)> {
    if 0 <= pos < s.len() {
        if s[pos] == 0x00 {
            match u32_at(s, pos + 1) {
                Some((min, next)) => Some((Limits { min, max: None }, next)),
                None => None,
            }
        } else if s[pos] == 0x01 {
            match u32_at(s, pos + 1) {
                Some((min, p)) => match u32_at(s, p) {
                    Some((max, next)) => Some((Limits { min, max: Some(max) }, next)),
                    None => None,
                },
                None => None,
            }
        } else {
            None
        }
    } else {
        None
    }
}

/// A table type: the element type, which is always a function reference,
/// and the limits.
pub open spec fn tabletype_at(s: Seq<u8>, pos: int) -> Option<(Limits, int)> {
    if 0 <= pos < s.len() && s[pos] == 0x70 {
        limits_at(s, pos + 1)
    } else {
        None
    }
}

/// The type of a global: its value type, and whether it is mutable.
pub open spec fn globaltype_at(s: Seq<u8>, pos: int) -> Option<(GlobalType, int)> {
    match valtype_at(s, pos) {
        Some((ty, p)) => if p < s.len() && s[p] <= 1 {
            Some((GlobalType { ty, mutable: s[p] == 1 }, p + 1))
        } else {
            None
        },
        None => None,
    }
}

/// A byte vector: the length, then the bytes.
pub open spec fn bytes_at(s: Seq<u8>, pos: int) -> Option<(Seq<u8>, int)> {
    match u32_at(s, pos) {
        Some((n, p)) => if p + n <= s.len() {
            Some((s.subrange(p, p + n), p + n))
        } else {
            None
        },
        None => None,
    }
}

/// The kind that a byte stands for.
pub open spec fn kind_of(b: u8) -> Option<ExternKind> {
    if b == 0 {
        Some(ExternKind::Func)
    } else if b == 1 {
        Some(ExternKind::Table)
    } else if b == 2 {
        Some(ExternKind::Memory)
    } else if b == 3 {
        Some(ExternKind::Global)
    } else {
        None
    }
}

/// What an import asks for: the kind, and the type of what is expected.
pub open spec fn importdesc_at(s: Seq<u8>, pos: int) -> Option<(ImportDesc, int)> {
    if 0 <= pos < s.len() {
        if s[pos] == 0 {
            match u32_at(s, pos + 1) {
                Some((t, next)) => Some((ImportDesc::Func(t), next)),
                None => None,
            }
        } else if s[pos] == 1 {
            match tabletype_at(s, pos + 1) {
                Some((l, next)) => Some((ImportDesc::Table(l), next)),
                None => None,
            }
        } else if s[pos] == 2 {
            match limits_at(s, pos + 1) {
                Some((l, next)) => Some((ImportDesc::Memory(l), next)),
                None => None,
            }
        } else if s[pos] == 3 {
            match globaltype_at(s, pos + 1) {
                Some((g, next)) => Some((ImportDesc::Global(g), next)),
                None => None,
            }
        } else {
            None
        }
    } else {
        None
    }
}

/// An import: the two names and what is asked for.
pub open spec fn import_at(s: Seq<u8>, pos: int) -> Option<(ImportView, int)> {
    match bytes_at(s, pos) {
        Some((module, p)) => match bytes_at(s, p) {
            Some((name, q)) => match importdesc_at(s, q) {
                Some((desc, next)) => Some((ImportView { module, name, desc }, next)),
                None => None,
            },
            None => None,
        },
        None => None,
    }
}

/// An export: the name, the kind and the index.
pub open spec fn export_at(s: Seq<u8>, pos: int) -> Option<(ExportView, int)> {
    match bytes_at(s, pos) {
        Some((name, p)) => if p < s.len() {
            match kind_of(s[p]) {
                Some(kind) => match u32_at(s, p + 1) {
                    Some((index, next)) => Some((ExportView { name, kind, index }, next)),
                    None => None,
                },
                None => None,
            }
        } else {
            None
        },
        None => None,
    }
}

/// The instruction of a constant expression, without the closing `end`.
pub open spec fn const_instr_at(s: Seq<u8>, pos: int) -> Option<(ConstExpr, int)> {
    if 0 <= pos < s.len() {
        if s[pos] == 0x41 {
            match sleb(s, pos + 1, 32) {
                Some((v, next)) => Some((ConstExpr::I32(v as i32), next)),
                None => None,
            }
        } else if s[pos] == 0x42 {
            match sleb(s, pos + 1, 64) {
                Some((v, next)) => Some((ConstExpr::I64(v as i64), next)),
                None => None,
            }
        } else if s[pos] == 0x43 {
            if pos + 5 <= s.len() {
                Some((ConstExpr::F32(le_at(s, pos + 1, 4) as u32), pos + 5))
            } else {
                None
            }
        } else if s[pos] == 0x44 {
            if pos + 9 <= s.len() {
                Some((ConstExpr::F64(le_at(s, pos + 1, 8) as u64), pos + 9))
            } else {
                None
            }
        } else if s[pos] == 0x23 {
            match u32_at(s, pos + 1) {
                Some((g, next)) => Some((ConstExpr::GlobalGet(g), next)),
                None => None,
            }
        } else {
            None
        }
    } else {
        None
    }
}

/// A constant expression: one instruction and `end`.
pub open spec fn constexpr_at(s: Seq<u8>, pos: int) -> Option<(ConstExpr, int)> {
    match const_instr_at(s, pos) {
        Some((e, p)) => if p < s.len() && s[p] == 0x0B {
            Some((e, p + 1))
        } else {
            None
        },
        None => None,
    }
}

/// A global: its type and the expression that gives its initial value.
pub open spec fn global_at(s: Seq<u8>, pos: int) -> Option<(Global, int)> {
    match globaltype_at(s, pos) {
        Some((ty, p)) => match constexpr_at(s, p) {
            Some((init, next)) => Some((Global { ty, init }, next)),
            None => None,
        },
        None => None,
    }
}

/// `n` more unsigned 32-bit integers, appended to `acc`.
pub open spec fn u32s_from(s: Seq<u8>, pos: int, n: nat, acc: Seq<u32>) -> Option<
    (Seq<u32>, int),
>
    decreases n,
{
    if n == 0 {
        Some((acc, pos))
    } else {
        match u32_at(s, pos) {
            Some((v, next)) => u32s_from(s, next, (n - 1) as nat, acc.push(v)),
            None => None,
        }
    }
}

/// A vector of unsigned 32-bit integers: the count, then the integers.
pub open spec fn u32_vec_at(s: Seq<u8>, pos: int) -> Option<(Seq<u32>, int)> {
    match u32_at(s, pos) {
        Some((n, next)) => u32s_from(s, next, n as nat, Seq::empty()),
        None => None,
    }
}

/// An element segment: the table, the offset and the functions.
pub open spec fn element_at(s: Seq<u8>, pos: int) -> Option<(ElementView, int)> {
    match u32_at(s, pos) {
        Some((table, p)) => match constexpr_at(s, p) {
            Some((offset, q)) => match u32_vec_at(s, q) {
                Some((init, next)) => Some((ElementView { table, offset, init }, next)),
                None => None,
            },
            None => None,
        },
        None => None,
    }
}

/// A data segment: the memory, the offset and the bytes.
pub open spec fn data_at(s: Seq<u8>, pos: int) -> Option<(DataView, int)> {
    match u32_at(s, pos) {
        Some((memory, p)) => match constexpr_at(s, p) {
            Some((offset, q)) => match bytes_at(s, q) {
                Some((init, next)) => Some((DataView { memory, offset, init }, next)),
                None => None,
            },
            None => None,
        },
        None => None,
    }
}

/// The alignment and offset of a memory instruction.
pub open spec fn memarg_at(s: Seq<u8>, pos: int) -> Option<((u32, u32), int)> {
    match u32_at(s, pos) {
        Some((align, p)) => match u32_at(s, p) {
            Some((offset, next)) => Some(((align, offset), next)),
            None => None,
        },
        None => None,
    }
}

/// An instruction whose only immediate operand is one index.
pub open spec fn indexed(op: u8, x: u32) -> Option<Instr> {
    if op == 0x0C {
        Some(Instr::Br(x))
    } else if op == 0x0D {
        Some(Instr::BrIf(x))
    } else if op == 0x10 {
        Some(Instr::Call(x))
    } else if op == 0x20 {
        Some(Instr::LocalGet(x))
    } else if op == 0x21 {
        Some(Instr::LocalSet(x))
    } else if op == 0x22 {
        Some(Instr::LocalTee(x))
    } else if op == 0x23 {
        Some(Instr::GlobalGet(x))
    } else if op == 0x24 {
        Some(Instr::GlobalSet(x))
    } else {
        None
    }
}

/// An instruction that is its opcode alone.
pub open spec fn plain(op: u8) -> Option<Instr> {
    if op == 0x00 {
        Some(Instr::Unreachable)
    } else if op == 0x01 {
        Some(Instr::Nop)
    } else if op == 0x05 {
        Some(Instr::Else)
    } else if op == 0x0B {
        Some(Instr::End)
    } else if op == 0x0F {
        Some(Instr::Return)
    } else if op == 0x1A {
        Some(Instr::Drop)
    } else if op == 0x1B {
        Some(Instr::Select)
    } else if 0x45 <= op <= 0xBF {
        Some(Instr::Numeric(op))
    } else {
        None
    }
}

/// A block, loop or if with its result type.
pub open spec fn opener(op: u8, bt: BlockType) -> Option<Instr> {
    if op == 0x02 {
        Some(Instr::Block(bt))
    } else if op == 0x03 {
        Some(Instr::Loop(bt))
    } else if op == 0x04 {
        Some(Instr::If(bt))
    } else {
        None
    }
}

/// The instruction at `pos`, the labels it adds to a label pool that holds
/// `pool` entries so far, and the position after it.
pub open spec fn instr_at(s: Seq<u8>, pos: int, pool: int) -> Option<(Instr, Seq<u32>, int)> {
    if 0 <= pos < s.len() {
        let op = s[pos];
        if plain(op) is Some {
            Some((plain(op)->0, Seq::empty(), pos + 1))
        } else if op == 0x02 || op == 0x03 || op == 0x04 {
            match blocktype_at(s, pos + 1) {
                Some((bt, next)) => Some((opener(op, bt)->0, Seq::empty(), next)),
                None => None,
            }
        } else if indexed(op, 0) is Some {
            match u32_at(s, pos + 1) {
                Some((x, next)) => Some((indexed(op, x)->0, Seq::empty(), next)),
                None => None,
            }
        } else if op == 0x0E {
            match u32_at(s, pos + 1) {
                Some((n, p)) => match u32s_from(s, p, (n + 1) as nat, Seq::empty()) {
                    Some((labels, next)) => if pool + n + 1 <= u32::MAX {
                        Some((Instr::BrTable { first: pool as u32, count: n }, labels, next))
                    } else {
                        None
                    },
                    None => None,
                },
                None => None,
            }
        } else if op == 0x11 {
            match u32_at(s, pos + 1) {
                Some((t, p)) => if p < s.len() && s[p] == 0 {
                    Some((Instr::CallIndirect(t), Seq::empty(), p + 1))
                } else {
                    None
                },
                None => None,
            }
        } else if 0x28 <= op <= 0x3E {
            match memarg_at(s, pos + 1) {
                Some(((align, offset), next)) => if op <= 0x35 {
                    Some((Instr::Load { op, align, offset }, Seq::empty(), next))
                } else {
                    Some((Instr::Store { op, align, offset }, Seq::empty(), next))
                },
                None => None,
            }
        } else if op == 0x3F || op == 0x40 {
            if pos + 1 < s.len() && s[pos + 1] == 0 {
                Some(
                    (
                        if op == 0x3F {
                            Instr::MemorySize
                        } else {
                            Instr::MemoryGrow
                        },
                        Seq::empty(),
                        pos + 2,
                    ),
                )
            } else {
                None
            }
        } else if op == 0x41 {
            match sleb(s, pos + 1, 32) {
                Some((v, next)) => Some((Instr::I32Const(v as i32), Seq::empty(), next)),
                None => None,
            }
        } else if op == 0x42 {
            match sleb(s, pos + 1, 64) {
                Some((v, next)) => Some((Instr::I64Const(v as i64), Seq::empty(), next)),
                None => None,
            }
        } else if op == 0x43 {
            if pos + 5 <= s.len() {
                Some((Instr::F32Const(le_at(s, pos + 1, 4) as u32), Seq::empty(), pos + 5))
            } else {
                None
            }
        } else if op == 0x44 {
            if pos + 9 <= s.len() {
                Some((Instr::F64Const(le_at(s, pos + 1, 8) as u64), Seq::empty(), pos + 9))
            } else {
                None
            }
        } else {
            None
        }
    } else {
        None
    }
}

/// Whether the instruction opens a nested region.
pub open spec fn opens(i: Instr) -> bool {
    i is Block || i is Loop || i is If
}

/// The rest of a function body that ends at `end`, with `depth` regions
/// open (the function's own among them): the instructions up to the `end`
/// that closes the last region, which must be the last byte of the body.
pub open spec fn instrs_from(
    s: Seq<u8>,
    pos: int,
    end: int,
    depth: nat,
    instrs: Seq<Instr>,
    labels: Seq<u32>,
) -> Option<(Seq<Instr>, Seq<u32>)>
    decreases end - pos,
{
    match instr_at(s, pos, labels.len() as int) {
        Some((i, more, next)) => {
            if !(pos < next <= end) {
                None
            } else if i is End && depth <= 1 {
                if next == end {
                    Some((instrs.push(i), labels + more))
                } else {
                    None
                }
            } else {
                let d = if i is End {
                    (depth - 1) as nat
                } else if opens(i) {
                    depth + 1
                } else {
                    depth
                };
                instrs_from(s, next, end, d, instrs.push(i), labels + more)
            }
        },
        None => None,
    }
}

/// `n` more groups of locals, appended to `acc`, which holds `total`
/// locals. A function has at most `u32::MAX` locals.
pub open spec fn groups_from(s: Seq<u8>, pos: int, n: nat, acc: Seq<LocalGroup>, total: int)
    -> Option<(Seq<LocalGroup>, int)>
    decreases n,
{
    if n == 0 {
        Some((acc, pos))
    } else {
        match u32_at(s, pos) {
            Some((count, p)) => match valtype_at(s, p) {
                Some((ty, next)) => if total + count <= u32::MAX {
                    groups_from(
                        s,
                        next,
                        (n - 1) as nat,
                        acc.push(LocalGroup { count, ty }),
                        total + count,
                    )
                } else {
                    None
                },
                None => None,
            },
            None => None,
        }
    }
}

/// A function body: its size, the locals and the instructions, which fill
/// the size exactly.
pub open spec fn code_at(s: Seq<u8>, pos: int) -> Option<(CodeView, int)> {
    match u32_at(s, pos) {
        Some((size, p)) => if p + size > s.len() {
            None
        } else {
            match u32_at(s, p) {
            Some((n, q)) => match groups_from(s, q, n as nat, Seq::empty(), 0) {
                Some((locals, r)) => match instrs_from(
                    s,
                    r,
                    p + size,
                    1,
                    Seq::empty(),
                    Seq::empty(),
                ) {
                    Some((instrs, labels)) => Some(
                        (CodeView { locals, instrs, labels }, p + size),
                    ),
                    None => None,
                },
                None => None,
            },
            None => None,
            }
        },
        None => None,
    }
}

/// `n` more function types, appended to `acc`.
pub open spec fn functypes_from(s: Seq<u8>, pos: int, n: nat, acc: Seq<FuncTypeView>) -> Option<
    (Seq<FuncTypeView>, int),
>
    decreases n,
{
    if n == 0 {
        Some((acc, pos))
    } else {
        match functype_at(s, pos) {
            Some((x, next)) => functypes_from(s, next, (n - 1) as nat, acc.push(x)),
            None => None,
        }
    }
}

/// `n` more imports, appended to `acc`.
pub open spec fn imports_from(s: Seq<u8>, pos: int, n: nat, acc: Seq<ImportView>) -> Option<
    (Seq<ImportView>, int),
>
    decreases n,
{
    if n == 0 {
        Some((acc, pos))
    } else {
        match import_at(s, pos) {
            Some((x, next)) => imports_from(s, next, (n - 1) as nat, acc.push(x)),
            None => None,
        }
    }
}

/// `n` more table types, appended to `acc`.
pub open spec fn tables_from(s: Seq<u8>, pos: int, n: nat, acc: Seq<Limits>) -> Option<
    (Seq<Limits>, int),
>
    decreases n,
{
    if n == 0 {
        Some((acc, pos))
    } else {
        match tabletype_at(s, pos) {
            Some((x, next)) => tables_from(s, next, (n - 1) as nat, acc.push(x)),
            None => None,
        }
    }
}

/// `n` more memory types, appended to `acc`.
pub open spec fn mems_from(s: Seq<u8>, pos: int, n: nat, acc: Seq<Limits>) -> Option<
    (Seq<Limits>, int),
>
    decreases n,
{
    if n == 0 {
        Some((acc, pos))
    } else {
        match limits_at(s, pos) {
            Some((x, next)) => mems_from(s, next, (n - 1) as nat, acc.push(x)),
            None => None,
        }
    }
}

/// `n` more globals, appended to `acc`.
pub open spec fn globals_from(s: Seq<u8>, pos: int, n: nat, acc: Seq<Global>) -> Option<
    (Seq<Global>, int),
>
    decreases n,
{
    if n == 0 {
        Some((acc, pos))
    } else {
        match global_at(s, pos) {
            Some((x, next)) => globals_from(s, next, (n - 1) as nat, acc.push(x)),
            None => None,
        }
    }
}

/// `n` more exports, appended to `acc`.
pub open spec fn exports_from(s: Seq<u8>, pos: int, n: nat, acc: Seq<ExportView>) -> Option<
    (Seq<ExportView>, int),
>
    decreases n,
{
    if n == 0 {
        Some((acc, pos))
    } else {
        match export_at(s, pos) {
            Some((x, next)) => exports_from(s, next, (n - 1) as nat, acc.push(x)),
            None => None,
        }
    }
}

/// `n` more element segments, appended to `acc`.
pub open spec fn elements_from(s: Seq<u8>, pos: int, n: nat, acc: Seq<ElementView>) -> Option<
    (Seq<ElementView>, int),
>
    decreases n,
{
    if n == 0 {
        Some((acc, pos))
    } else {
        match element_at(s, pos) {
            Some((x, next)) => elements_from(s, next, (n - 1) as nat, acc.push(x)),
            None => None,
        }
    }
}

/// `n` more function bodies, appended to `acc`.
pub open spec fn codes_from(s: Seq<u8>, pos: int, n: nat, acc: Seq<CodeView>) -> Option<
    (Seq<CodeView>, int),
>
    decreases n,
{
    if n == 0 {
        Some((acc, pos))
    } else {
        match code_at(s, pos) {
            Some((x, next)) => codes_from(s, next, (n - 1) as nat, acc.push(x)),
            None => None,
        }
    }
}

/// `n` more data segments, appended to `acc`.
pub open spec fn datas_from(s: Seq<u8>, pos: int, n: nat, acc: Seq<DataView>) -> Option<
    (Seq<DataView>, int),
>
    decreases n,
{
    if n == 0 {
        Some((acc, pos))
    } else {
        match data_at(s, pos) {
            Some((x, next)) => datas_from(s, next, (n - 1) as nat, acc.push(x)),
            None => None,
        }
    }
}

/// The payload of the section `id` at `pos`, added to the draft `d`, and
/// the position after it.
pub open spec fn section_at(
    s: Seq<u8>,
    id: u8,
    pos: int,
    d: DraftView,
) -> Option<(DraftView, int)> {
    if id == 8 {
        match u32_at(s, pos) {
            Some((f, next)) => Some((DraftView { start: Some(f), ..d }, next)),
            None => None,
        }
    } else {
        match u32_at(s, pos) {
            Some((n, p)) => {
                if id == 1 {
                    match functypes_from(s, p, n as nat, Seq::empty()) {
                        Some((v, next)) => Some((DraftView { types: v, ..d }, next)),
                        None => None,
                    }
                } else if id == 2 {
                    match imports_from(s, p, n as nat, Seq::empty()) {
                        Some((v, next)) => Some((DraftView { imports: v, ..d }, next)),
                        None => None,
                    }
                } else if id == 3 {
                    match u32s_from(s, p, n as nat, Seq::empty()) {
                        Some((v, next)) => Some((DraftView { funcs: v, ..d }, next)),
                        None => None,
                    }
                } else if id == 4 {
                    match tables_from(s, p, n as nat, Seq::empty()) {
                        Some((v, next)) => Some((DraftView { tables: v, ..d }, next)),
                        None => None,
                    }
                } else if id == 5 {
                    match mems_from(s, p, n as nat, Seq::empty()) {
                        Some((v, next)) => Some((DraftView { mems: v, ..d }, next)),
                        None => None,
                    }
                } else if id == 6 {
                    match globals_from(s, p, n as nat, Seq::empty()) {
                        Some((v, next)) => Some((DraftView { globals: v, ..d }, next)),
                        None => None,
                    }
                } else if id == 7 {
                    match exports_from(s, p, n as nat, Seq::empty()) {
                        Some((v, next)) => Some((DraftView { exports: v, ..d }, next)),
                        None => None,
                    }
                } else if id == 9 {
                    match elements_from(s, p, n as nat, Seq::empty()) {
                        Some((v, next)) => Some((DraftView { elems: v, ..d }, next)),
                        None => None,
                    }
                } else if id == 10 {
                    match codes_from(s, p, n as nat, Seq::empty()) {
                        Some((v, next)) => Some((DraftView { codes: v, ..d }, next)),
                        None => None,
                    }
                } else if id == 11 {
                    match datas_from(s, p, n as nat, Seq::empty()) {
                        Some((v, next)) => Some((DraftView { datas: v, ..d }, next)),
                        None => None,
                    }
                } else {
                    None
                }
            },
            None => None,
        }
    }
}

/// The sections from `pos` to the end of the input, added to the draft
/// `d`. Each section is an id, the size of its payload and the payload,
/// which fills the size exactly. Custom sections (id 0) start with a name
/// and may stand anywhere; the others stand in the order of their ids, each
/// at most once, `last` being the id of the one before. Every function has
/// a body.
pub open spec fn sections_from(s: Seq<u8>, pos: int, last: int, d: DraftView) -> Option<DraftView>
    decreases s.len() - pos,
{
    if pos < 0 {
        None
    } else if pos >= s.len() {
        if d.funcs.len() == d.codes.len() {
            Some(d)
        } else {
            None
        }
    } else {
        let id = s[pos];
        match u32_at(s, pos + 1) {
            Some((size, p)) => {
                let end = p + size;
                if !(pos < end <= s.len()) {
                    None
                } else if id == 0 {
                    match bytes_at(s, p) {
                        Some((name, q)) => if q <= end {
                            sections_from(s, end, last, d)
                        } else {
                            None
                        },
                        None => None,
                    }
                } else if id > 11 || id <= last {
                    None
                } else {
                    match section_at(s, id, p, d) {
                        Some((d2, next)) => if next == end {
                            sections_from(s, end, id as int, d2)
                        } else {
                            None
                        },
                        None => None,
                    }
                }
            },
            None => None,
        }
    }
}

/// Why a byte sequence is not a module.
#[derive(Clone, Copy, PartialEq, Eq, Structural, Debug)]
pub enum DecodeError {
    /// The input is shorter than the preamble.
    UnexpectedEnd,
    /// The first four bytes are not the magic constant.
    BadMagic,
    /// The version is not 1.
    BadVersion,
    /// A section is malformed, out of order or repeated, or bytes are left
    /// over.
    Malformed,
}

/// The input starts with the magic bytes.
pub open spec fn has_magic(s: Seq<u8>) -> bool {
    s.len() >= 4 && s[0] == 0x00 && s[1] == 0x61 && s[2] == 0x73 && s[3] == 0x6d
}

/// The magic bytes are followed by version 1.
pub open spec fn has_version(s: Seq<u8>) -> bool {
    s.len() >= 8 && s[4] == 0x01 && s[5] == 0x00 && s[6] == 0x00 && s[7] == 0x00
}

/// The module that a byte sequence encodes, or why it encodes none.
pub open spec fn decode_spec(s: Seq<u8>) -> Result<DraftView, DecodeError> {
    if s.len() < 8 {
        Err(DecodeError::UnexpectedEnd)
    } else if !has_magic(s) {
        Err(DecodeError::BadMagic)
    } else if !has_version(s) {
        Err(DecodeError::BadVersion)
    } else {
        match sections_from(s, 8, 0, empty_draft()) {
            Some(d) => Ok(d),
            None => Err(DecodeError::Malformed),
        }
    }
}

} // verus!

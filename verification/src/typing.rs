//! The validation rules: what makes a draft a valid module.
//!
//! A function body is checked by walking its instructions with a stack of
//! operand types and a stack of control frames, one per open region.
use vstd::prelude::*;
use crate::types::{
    ValType, BlockType, FuncTypeView, Limits, GlobalType, ConstExpr, ExternKind, ImportDesc,
    ImportView, ExportView, ElementView, DataView, Instr, LocalGroup, DraftView,
};
use crate::ops::{numeric_sig, access_of, max_align};

verus! {

/// The largest number of pages a memory can have.
pub const MAX_PAGES: u32 = 65536;

/// What opened a control frame.
#[derive(Clone, Copy, PartialEq, Eq, Structural, Debug)]
pub enum FrameKind {
    Func,
    Block,
    Loop,
    If,
    Else,
}

/// An open region: its result type, the height of the operand stack at its
/// entry, and whether the rest of it cannot be reached, in which case
/// operands that are missing below that height are taken to have whatever
/// type is asked for.
#[derive(Clone, Copy, PartialEq, Eq, Structural, Debug)]
pub struct CtrlFrame {
    pub kind: FrameKind,
    pub result: BlockType,
    pub height: usize,
    pub unreachable: bool,
}

/// The two stacks of the validator. An operand of unknown type is `None`.
pub struct Stacks {
    pub opds: Seq<Option<ValType>>,
    pub ctrls: Seq<CtrlFrame>,
}

/// The index spaces of a module: imports first, then its own definitions.
pub struct Context {
    pub types: Seq<FuncTypeView>,
    pub funcs: Seq<u32>,
    pub tables: Seq<Limits>,
    pub mems: Seq<Limits>,
    pub globals: Seq<GlobalType>,
    pub imported_globals: int,
}

/// What a function body is checked against.
pub struct Scope {
    pub module: Context,
    pub params: Seq<ValType>,
    pub groups: Seq<LocalGroup>,
    pub result: BlockType,
    pub pool: Seq<u32>,
}

/// Why a draft is not a valid module: the section that breaks a rule, or
/// the function body and the instruction in it.
#[derive(Clone, Copy, PartialEq, Eq, Structural, Debug)]
pub enum ValidationError {
    Type,
    Import,
    Function,
    Table,
    Memory,
    Global,
    Export,
    Start,
    Element,
    Data,
    Code { func: usize, at: usize },
}

/// The index spaces after the imports from `i` on are added to `c`.
pub open spec fn with_imports(imports: Seq<ImportView>, i: int, c: Context) -> Context
    decreases imports.len() - i,
{
    if i < 0 || i >= imports.len() {
        c
    } else {
        with_imports(
            imports,
            i + 1,
            match imports[i].desc {
                ImportDesc::Func(t) => Context { funcs: c.funcs.push(t), ..c },
                ImportDesc::Table(l) => Context { tables: c.tables.push(l), ..c },
                ImportDesc::Memory(l) => Context { mems: c.mems.push(l), ..c },
                ImportDesc::Global(g) => Context {
                    globals: c.globals.push(g),
                    imported_globals: c.imported_globals + 1,
                    ..c
                },
            },
        )
    }
}

/// The index spaces after the types of the globals from `i` on are added.
pub open spec fn with_globals(d: DraftView, i: int, globals: Seq<GlobalType>) -> Seq<GlobalType>
    decreases d.globals.len() - i,
{
    if i < 0 || i >= d.globals.len() {
        globals
    } else {
        with_globals(d, i + 1, globals.push(d.globals[i].ty))
    }
}

/// The index spaces of a draft.
pub open spec fn context_of(d: DraftView) -> Context {
    let c = with_imports(
        d.imports,
        0,
        Context {
            types: d.types,
            funcs: Seq::empty(),
            tables: Seq::empty(),
            mems: Seq::empty(),
            globals: Seq::empty(),
            imported_globals: 0,
        },
    );
    Context {
        types: c.types,
        funcs: c.funcs + d.funcs,
        tables: c.tables + d.tables,
        mems: c.mems + d.mems,
        globals: with_globals(d, 0, c.globals),
        imported_globals: c.imported_globals,
    }
}

/// The result of a function type as a block type.
pub open spec fn result_of(ft: FuncTypeView) -> BlockType {
    if ft.results.len() == 0 {
        BlockType::Empty
    } else {
        BlockType::Value(ft.results[0])
    }
}

/// Takes the top operand, whatever its type.
pub open spec fn pop_any(st: Stacks) -> Option<(Option<ValType>, Stacks)> {
    if st.ctrls.len() == 0 {
        None
    } else if st.opds.len() <= st.ctrls.last().height {
        if st.ctrls.last().unreachable {
            Some((None, st))
        } else {
            None
        }
    } else {
        Some((st.opds.last(), Stacks { opds: st.opds.drop_last(), ..st }))
    }
}

/// Takes the top operand, which has to be of type `t` or unknown.
pub open spec fn pop(st: Stacks, t: ValType) -> Option<Stacks> {
    match pop_any(st) {
        Some((a, st2)) => if a is None || a == Some(t) {
            Some(st2)
        } else {
            None
        },
        None => None,
    }
}

/// Puts an operand of type `t` on the stack.
pub open spec fn push(st: Stacks, t: ValType) -> Stacks {
    Stacks { opds: st.opds.push(Some(t)), ..st }
}

/// Takes the operand that a result type stands for, if any.
pub open spec fn pop_block(st: Stacks, bt: BlockType) -> Option<Stacks> {
    match bt {
        BlockType::Empty => Some(st),
        BlockType::Value(t) => pop(st, t),
    }
}

/// Puts the operand that a result type stands for, if any.
pub open spec fn push_block(st: Stacks, bt: BlockType) -> Stacks {
    match bt {
        BlockType::Empty => st,
        BlockType::Value(t) => push(st, t),
    }
}

/// Takes operands of the first `n` types of `ts`, the last of them first.
pub open spec fn pop_all(st: Stacks, ts: Seq<ValType>, n: nat) -> Option<Stacks>
    decreases n,
{
    if n == 0 {
        Some(st)
    } else {
        match pop(st, ts[n - 1]) {
            Some(st2) => pop_all(st2, ts, (n - 1) as nat),
            None => None,
        }
    }
}

/// Pushes operands of the types of `ts` from `i` on.
pub open spec fn push_all(st: Stacks, ts: Seq<ValType>, i: int) -> Stacks
    decreases ts.len() - i,
{
    if i < 0 || i >= ts.len() {
        st
    } else {
        push_all(push(st, ts[i]), ts, i + 1)
    }
}

/// After an instruction that never falls through: the operands of the
/// current frame are dropped and the frame is marked.
pub open spec fn mark_unreachable(st: Stacks) -> Stacks {
    if st.ctrls.len() == 0 {
        st
    } else {
        let f = st.ctrls.last();
        Stacks {
            opds: if f.height <= st.opds.len() {
                st.opds.subrange(0, f.height as int)
            } else {
                st.opds
            },
            ctrls: st.ctrls.update(st.ctrls.len() - 1, CtrlFrame { unreachable: true, ..f }),
        }
    }
}

/// Opens a frame at the current height of the operand stack.
pub open spec fn enter(st: Stacks, kind: FrameKind, result: BlockType) -> Stacks {
    Stacks {
        ctrls: st.ctrls.push(
            CtrlFrame { kind, result, height: st.opds.len() as usize, unreachable: false },
        ),
        ..st
    }
}

/// Closes the current frame: its result is on the stack, and nothing else
/// above the height at its entry.
pub open spec fn leave(st: Stacks) -> Option<(CtrlFrame, Stacks)> {
    if st.ctrls.len() == 0 {
        None
    } else {
        let f = st.ctrls.last();
        match pop_block(st, f.result) {
            Some(st2) => if st2.opds.len() == f.height {
                Some((f, Stacks { opds: st2.opds, ctrls: st2.ctrls.drop_last() }))
            } else {
                None
            },
            None => None,
        }
    }
}

/// What a branch to the label `l` has to leave on the stack: the result of
/// the region, or nothing for a loop, which is entered again.
pub open spec fn label_type(st: Stacks, l: u32) -> Option<BlockType> {
    if l < st.ctrls.len() {
        let f = st.ctrls[st.ctrls.len() - 1 - l];
        Some(
            if f.kind is Loop {
                BlockType::Empty
            } else {
                f.result
            },
        )
    } else {
        None
    }
}

/// The number of locals in the groups from `i` on, added to `acc`.
pub open spec fn local_count(groups: Seq<LocalGroup>, i: int, acc: int) -> int
    decreases groups.len() - i,
{
    if i < 0 || i >= groups.len() {
        acc
    } else {
        local_count(groups, i + 1, acc + groups[i].count)
    }
}

/// The type of the `x`-th local among the groups from `i` on.
pub open spec fn group_type(groups: Seq<LocalGroup>, i: int, x: int) -> Option<ValType>
    decreases groups.len() - i,
{
    if i < 0 || i >= groups.len() || x < 0 {
        None
    } else if x < groups[i].count {
        Some(groups[i].ty)
    } else {
        group_type(groups, i + 1, x - groups[i].count)
    }
}

/// The type of local `x`: the parameters come first.
pub open spec fn local_type(sc: Scope, x: u32) -> Option<ValType> {
    if x < sc.params.len() {
        Some(sc.params[x as int])
    } else {
        group_type(sc.groups, 0, x - sc.params.len())
    }
}

/// The type of the function `f`.
pub open spec fn func_type(c: Context, f: u32) -> Option<FuncTypeView> {
    if f < c.funcs.len() && c.funcs[f as int] < c.types.len() {
        Some(c.types[c.funcs[f as int] as int])
    } else {
        None
    }
}

/// A call: the arguments are taken, the results pushed.
pub open spec fn apply(st: Stacks, ft: FuncTypeView) -> Option<Stacks> {
    match pop_all(st, ft.params, ft.params.len()) {
        Some(st2) => Some(push_all(st2, ft.results, 0)),
        None => None,
    }
}

/// All labels of a branch table leave the same on the stack.
pub open spec fn labels_agree(st: Stacks, pool: Seq<u32>, first: int, count: int, bt: BlockType)
    -> bool {
    forall|k: int| first <= k < first + count ==> label_type(st, #[trigger] pool[k]) == Some(bt)
}

/// The stacks after the instruction `ins`, or `None` where it is not well
/// typed.
pub open spec fn check_instr(sc: Scope, st: Stacks, ins: Instr) -> Option<Stacks> {
    match ins {
        Instr::Unreachable => Some(mark_unreachable(st)),
        Instr::Nop => Some(st),
        Instr::Block(bt) => Some(enter(st, FrameKind::Block, bt)),
        Instr::Loop(bt) => Some(enter(st, FrameKind::Loop, bt)),
        Instr::If(bt) => match pop(st, ValType::I32) {
            Some(st2) => Some(enter(st2, FrameKind::If, bt)),
            None => None,
        },
        Instr::Else => match leave(st) {
            Some((f, st2)) => if f.kind is If {
                Some(enter(st2, FrameKind::Else, f.result))
            } else {
                None
            },
            None => None,
        },
        Instr::End => match leave(st) {
            Some((f, st2)) => if f.kind is If && f.result is Value {
                None
            } else {
                Some(push_block(st2, f.result))
            },
            None => None,
        },
        Instr::Br(l) => match label_type(st, l) {
            Some(bt) => match pop_block(st, bt) {
                Some(st2) => Some(mark_unreachable(st2)),
                None => None,
            },
            None => None,
        },
        Instr::BrIf(l) => match pop(st, ValType::I32) {
            Some(st1) => match label_type(st1, l) {
                Some(bt) => match pop_block(st1, bt) {
                    Some(st2) => Some(push_block(st2, bt)),
                    None => None,
                },
                None => None,
            },
            None => None,
        },
        Instr::BrTable { first, count } => match pop(st, ValType::I32) {
            Some(st1) => if first + count < sc.pool.len() {
                match label_type(st1, sc.pool[first + count]) {
                    Some(bt) => if labels_agree(st1, sc.pool, first as int, count as int, bt) {
                        match pop_block(st1, bt) {
                            Some(st2) => Some(mark_unreachable(st2)),
                            None => None,
                        }
                    } else {
                        None
                    },
                    None => None,
                }
            } else {
                None
            },
            None => None,
        },
        Instr::Return => match pop_block(st, sc.result) {
            Some(st2) => Some(mark_unreachable(st2)),
            None => None,
        },
        Instr::Call(f) => match func_type(sc.module, f) {
            Some(ft) => apply(st, ft),
            None => None,
        },
        Instr::CallIndirect(t) => if sc.module.tables.len() > 0 && t < sc.module.types.len() {
            match pop(st, ValType::I32) {
                Some(st2) => apply(st2, sc.module.types[t as int]),
                None => None,
            }
        } else {
            None
        },
        Instr::Drop => match pop_any(st) {
            Some((_, st2)) => Some(st2),
            None => None,
        },
        Instr::Select => match pop(st, ValType::I32) {
            Some(st1) => match pop_any(st1) {
                Some((a, st2)) => match pop_any(st2) {
                    Some((b, st3)) => if a is Some && b is Some && a != b {
                        None
                    } else {
                        Some(
                            Stacks {
                                opds: st3.opds.push(
                                    if a is Some {
                                        a
                                    } else {
                                        b
                                    },
                                ),
                                ..st3
                            },
                        )
                    },
                    None => None,
                },
                None => None,
            },
            None => None,
        },
        Instr::LocalGet(x) => match local_type(sc, x) {
            Some(t) => Some(push(st, t)),
            None => None,
        },
        Instr::LocalSet(x) => match local_type(sc, x) {
            Some(t) => pop(st, t),
            None => None,
        },
        Instr::LocalTee(x) => match local_type(sc, x) {
            Some(t) => match pop(st, t) {
                Some(st2) => Some(push(st2, t)),
                None => None,
            },
            None => None,
        },
        Instr::GlobalGet(x) => if x < sc.module.globals.len() {
            Some(push(st, sc.module.globals[x as int].ty))
        } else {
            None
        },
        Instr::GlobalSet(x) => if x < sc.module.globals.len() && sc.module.globals[x as int].mutable {
            pop(st, sc.module.globals[x as int].ty)
        } else {
            None
        },
        Instr::Load { op, align, offset } => match access_of(op) {
            Some(a) => if sc.module.mems.len() > 0 && align <= max_align(a.width) {
                match pop(st, ValType::I32) {
                    Some(st2) => Some(push(st2, a.ty)),
                    None => None,
                }
            } else {
                None
            },
            None => None,
        },
        Instr::Store { op, align, offset } => match access_of(op) {
            Some(a) => if sc.module.mems.len() > 0 && align <= max_align(a.width) {
                match pop(st, a.ty) {
                    Some(st2) => pop(st2, ValType::I32),
                    None => None,
                }
            } else {
                None
            },
            None => None,
        },
        Instr::MemorySize => if sc.module.mems.len() > 0 {
            Some(push(st, ValType::I32))
        } else {
            None
        },
        Instr::MemoryGrow => if sc.module.mems.len() > 0 {
            match pop(st, ValType::I32) {
                Some(st2) => Some(push(st2, ValType::I32)),
                None => None,
            }
        } else {
            None
        },
        Instr::I32Const(_) => Some(push(st, ValType::I32)),
        Instr::I64Const(_) => Some(push(st, ValType::I64)),
        Instr::F32Const(_) => Some(push(st, ValType::F32)),
        Instr::F64Const(_) => Some(push(st, ValType::F64)),
        Instr::Numeric(op) => match numeric_sig(op) {
            Some(s) => match pop(st, s.operand) {
                Some(st1) => if s.binary {
                    match pop(st1, s.operand) {
                        Some(st2) => Some(push(st2, s.result)),
                        None => None,
                    }
                } else {
                    Some(push(st1, s.result))
                },
                None => None,
            },
            None => None,
        },
    }
}

/// Checks the instructions from `i` on. The error is the position of the
/// first instruction that is not well typed; an instruction after the end
/// of the function, or a region left open, is reported where it shows.
pub open spec fn check_from(sc: Scope, st: Stacks, instrs: Seq<Instr>, i: int) -> Result<(), int>
    decreases instrs.len() - i,
{
    if i < 0 {
        Err(i)
    } else if i >= instrs.len() {
        if st.ctrls.len() == 0 {
            Ok(())
        } else {
            Err(i)
        }
    } else if st.ctrls.len() == 0 {
        Err(i)
    } else {
        match check_instr(sc, st, instrs[i]) {
            Some(st2) => check_from(sc, st2, instrs, i + 1),
            None => Err(i),
        }
    }
}

/// The stacks at the entry of a function body.
pub open spec fn entry(result: BlockType) -> Stacks {
    Stacks {
        opds: Seq::empty(),
        ctrls: seq![
            CtrlFrame { kind: FrameKind::Func, result, height: 0, unreachable: false },
        ],
    }
}

/// The scope of the body of the `i`-th function that the module defines.
pub open spec fn scope_of(c: Context, d: DraftView, i: int) -> Scope {
    let ft = d.types[d.funcs[i] as int];
    Scope {
        module: c,
        params: ft.params,
        groups: d.codes[i].locals,
        result: result_of(ft),
        pool: d.codes[i].labels,
    }
}

/// Checks the body of the `i`-th function that the module defines. Its
/// parameters and locals are no more than an index can name.
pub open spec fn check_code(c: Context, d: DraftView, i: int) -> Result<(), int> {
    if 0 <= i < d.funcs.len() && i < d.codes.len() && d.funcs[i] < d.types.len() && scope_of(
        c,
        d,
        i,
    ).params.len() + local_count(d.codes[i].locals, 0, 0) <= u32::MAX {
        check_from(scope_of(c, d, i), entry(scope_of(c, d, i).result), d.codes[i].instrs, 0)
    } else {
        Err(0)
    }
}

/// Checks the function bodies from the `i`-th on.
pub open spec fn check_codes(c: Context, d: DraftView, i: int) -> Result<(), ValidationError>
    decreases d.codes.len() - i,
{
    if i < 0 || i >= d.codes.len() {
        Ok(())
    } else {
        match check_code(c, d, i) {
            Ok(_) => check_codes(c, d, i + 1),
            Err(at) => Err(ValidationError::Code { func: i as usize, at: at as usize }),
        }
    }
}

/// Limits are in order and within `bound`.
pub open spec fn limits_ok(l: Limits, bound: int) -> bool {
    l.min <= bound && (l.max matches Some(m) ==> l.min <= m && m <= bound)
}

/// Every function type has at most one result.
pub open spec fn types_ok(d: DraftView) -> bool {
    forall|i: int| 0 <= i < d.types.len() ==> (#[trigger] d.types[i]).results.len() <= 1
}

/// An imported function has a type that exists; the limits of an imported table or
/// memory are in order.
pub open spec fn import_ok(d: DraftView, imp: ImportView) -> bool {
    match imp.desc {
        ImportDesc::Func(t) => t < d.types.len(),
        ImportDesc::Table(l) => limits_ok(l, u32::MAX as int),
        ImportDesc::Memory(l) => limits_ok(l, MAX_PAGES as int),
        ImportDesc::Global(_) => true,
    }
}

/// Every import is in order.
pub open spec fn imports_ok(d: DraftView) -> bool {
    forall|i: int| 0 <= i < d.imports.len() ==> import_ok(d, #[trigger] d.imports[i])
}

/// Every function has a type and a body.
pub open spec fn functions_ok(d: DraftView) -> bool {
    &&& d.funcs.len() == d.codes.len()
    &&& forall|i: int| 0 <= i < d.funcs.len() ==> #[trigger] d.funcs[i] < d.types.len()
}

/// At most one table, imported or defined, with its limits in order.
pub open spec fn tables_ok(c: Context, d: DraftView) -> bool {
    &&& c.tables.len() <= 1
    &&& forall|i: int| 0 <= i < d.tables.len() ==> limits_ok(#[trigger] d.tables[i], u32::MAX as int)
}

/// At most one memory, imported or defined, with its limits in order.
pub open spec fn mems_ok(c: Context, d: DraftView) -> bool {
    &&& c.mems.len() <= 1
    &&& forall|i: int| 0 <= i < d.mems.len() ==> limits_ok(#[trigger] d.mems[i], MAX_PAGES as int)
}

/// The type of a constant expression. It may read only an imported global
/// that is immutable.
pub open spec fn const_type(c: Context, e: ConstExpr) -> Option<ValType> {
    match e {
        ConstExpr::I32(_) => Some(ValType::I32),
        ConstExpr::I64(_) => Some(ValType::I64),
        ConstExpr::F32(_) => Some(ValType::F32),
        ConstExpr::F64(_) => Some(ValType::F64),
        ConstExpr::GlobalGet(x) => if x < c.imported_globals && x < c.globals.len()
            && !c.globals[x as int].mutable {
            Some(c.globals[x as int].ty)
        } else {
            None
        },
    }
}

/// Every global is initialized by a constant expression of its type.
pub open spec fn globals_ok(c: Context, d: DraftView) -> bool {
    forall|i: int|
        0 <= i < d.globals.len() ==> const_type(c, (#[trigger] d.globals[i]).init) == Some(
            d.globals[i].ty.ty,
        )
}

/// An export names something that exists.
pub open spec fn export_ok(c: Context, e: ExportView) -> bool {
    match e.kind {
        ExternKind::Func => e.index < c.funcs.len(),
        ExternKind::Table => e.index < c.tables.len(),
        ExternKind::Memory => e.index < c.mems.len(),
        ExternKind::Global => e.index < c.globals.len(),
    }
}

/// Every export names something that exists, and no name is used twice.
pub open spec fn exports_ok(c: Context, d: DraftView) -> bool {
    &&& forall|i: int| 0 <= i < d.exports.len() ==> export_ok(c, #[trigger] d.exports[i])
    &&& forall|i: int, j: int|
        0 <= i < j < d.exports.len() ==> (#[trigger] d.exports[i]).name != (
        #[trigger] d.exports[j]).name
}

/// The start function, if there is one, takes and returns nothing.
pub open spec fn start_ok(c: Context, d: DraftView) -> bool {
    d.start matches Some(f) ==> (func_type(c, f) matches Some(ft) && ft.params.len() == 0
        && ft.results.len() == 0)
}

/// An element segment names a table and functions that exist, at an offset that is a
/// 32-bit integer.
pub open spec fn element_ok(c: Context, e: ElementView) -> bool {
    &&& e.table < c.tables.len()
    &&& const_type(c, e.offset) == Some(ValType::I32)
    &&& forall|k: int| 0 <= k < e.init.len() ==> #[trigger] e.init[k] < c.funcs.len()
}

/// Every element segment is in order.
pub open spec fn elements_ok(c: Context, d: DraftView) -> bool {
    forall|i: int| 0 <= i < d.elems.len() ==> element_ok(c, #[trigger] d.elems[i])
}

/// A data segment names a memory that exists, at an offset that is a 32-bit integer.
pub open spec fn data_ok(c: Context, x: DataView) -> bool {
    x.memory < c.mems.len() && const_type(c, x.offset) == Some(ValType::I32)
}

/// Every data segment is in order.
pub open spec fn datas_ok(c: Context, d: DraftView) -> bool {
    forall|i: int| 0 <= i < d.datas.len() ==> data_ok(c, #[trigger] d.datas[i])
}

/// Whether a draft is a valid module, and if not, the first rule it breaks
/// in the order of the sections.
pub open spec fn check_spec(d: DraftView) -> Result<(), ValidationError> {
    let c = context_of(d);
    if !types_ok(d) {
        Err(ValidationError::Type)
    } else if !imports_ok(d) {
        Err(ValidationError::Import)
    } else if !functions_ok(d) {
        Err(ValidationError::Function)
    } else if !tables_ok(c, d) {
        Err(ValidationError::Table)
    } else if !mems_ok(c, d) {
        Err(ValidationError::Memory)
    } else if !globals_ok(c, d) {
        Err(ValidationError::Global)
    } else if !exports_ok(c, d) {
        Err(ValidationError::Export)
    } else if !start_ok(c, d) {
        Err(ValidationError::Start)
    } else if !elements_ok(c, d) {
        Err(ValidationError::Element)
    } else if !datas_ok(c, d) {
        Err(ValidationError::Data)
    } else {
        check_codes(c, d, 0)
    }
}

} // verus!

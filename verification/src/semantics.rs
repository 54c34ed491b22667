//! The meaning of execution: an abstract machine that runs one
//! instruction at a time on an instance and a stack of activation frames.
use vstd::prelude::*;
use crate::types::{BlockType, FuncTypeView, Instr, CodeView, DraftView};
use crate::format::le_at;
use crate::ops::{numeric_sig, access_of, Access};
use crate::types::ValType;
use crate::numeric::{Num, unary, binary};
use crate::value::Trap;
use crate::typing::local_count;

verus! {

/// The number of bytes in a page of memory.
pub const PAGE_SIZE: usize = 65536;

/// The largest memory, in pages, that an instance is given.
pub const PAGE_LIMIT: u32 = 4096;

/// The largest table, in entries, that an instance is given.
pub const TABLE_LIMIT: u32 = 0x0100_0000;

/// The deepest nesting of calls.
pub const CALL_DEPTH: usize = 2048;

/// The number of steps that one call may take.
pub const STEP_BUDGET: u64 = 0xffff_ffff_ffff_ffff;

/// What opened a region that a branch can target.
#[derive(Clone, Copy, PartialEq, Eq, Structural, Debug)]
pub enum LabelKind {
    Func,
    Block,
    Loop,
    If,
}

/// A control frame: an open region, the position where execution goes on
/// after a branch to it, the height of the operand stack at its entry, and
/// the number of values that a branch to it carries.
#[derive(Clone, Copy, PartialEq, Eq, Structural, Debug)]
pub struct Label {
    pub kind: LabelKind,
    pub cont: usize,
    pub height: usize,
    pub arity: usize,
}

/// An activation: the function, the position in its body, its locals, its
/// operand stack, its open regions, and the number of its results.
#[verifier::ext_equal]
pub struct FrameView {
    pub func: int,
    pub pc: int,
    pub locals: Seq<u64>,
    pub stack: Seq<u64>,
    pub labels: Seq<Label>,
    pub arity: int,
}

/// The running call: the current activation and those that wait for it.
#[verifier::ext_equal]
pub struct MachineView {
    pub frame: FrameView,
    pub callers: Seq<FrameView>,
}

/// What an instance owns: its memory with the limit to which it may grow,
/// its table of function references, and the values of its globals.
#[verifier::ext_equal]
pub struct StoreView {
    pub memory: Seq<u8>,
    pub max_pages: u32,
    pub table: Seq<Option<u32>>,
    pub globals: Seq<u64>,
}

/// The state of an instance between calls.
pub struct InstanceView {
    pub module: DraftView,
    pub store: StoreView,
}

/// Where a call stands after a step.
#[derive(Clone, Copy, PartialEq, Eq, Structural, Debug)]
pub enum Status {
    Running,
    Done(Option<u64>),
    Trapped(Trap),
}

/// What an instruction does to the current activation.
pub enum Flow {
    Go(FrameView),
    Stop(Trap),
}

/// The state after a step.
pub struct Step {
    pub inst: InstanceView,
    pub mach: MachineView,
    pub status: Status,
}

/// The number of values that a result type stands for.
pub open spec fn arity_of(bt: BlockType) -> usize {
    match bt {
        BlockType::Empty => 0,
        BlockType::Value(_) => 1,
    }
}

/// The position of the `end` that closes the region whose body starts at
/// `pc`, `depth` being the number of regions opened since; or, with
/// `or_else`, of its `else` if that comes first.
pub open spec fn scan(code: Seq<Instr>, pc: int, depth: nat, or_else: bool) -> Option<int>
    decreases code.len() - pc,
{
    if pc < 0 || pc >= code.len() {
        None
    } else {
        match code[pc] {
            Instr::End => if depth == 0 {
                Some(pc)
            } else {
                scan(code, pc + 1, (depth - 1) as nat, or_else)
            },
            Instr::Else => if depth == 0 && or_else {
                Some(pc)
            } else {
                scan(code, pc + 1, depth, or_else)
            },
            Instr::Block(_) | Instr::Loop(_) | Instr::If(_) => scan(
                code,
                pc + 1,
                depth + 1,
                or_else,
            ),
            _ => scan(code, pc + 1, depth, or_else),
        }
    }
}

/// The activation at the next instruction.
pub open spec fn advance(f: FrameView) -> FrameView {
    FrameView { pc: f.pc + 1, ..f }
}

/// The activation with `v` on top of its operand stack.
pub open spec fn pushed(f: FrameView, v: u64) -> FrameView {
    FrameView { stack: f.stack.push(v), ..f }
}

/// The activation without the top of its operand stack.
pub open spec fn popped(f: FrameView) -> FrameView {
    FrameView { stack: f.stack.drop_last(), ..f }
}

/// Opens a region whose `end` is at `e`.
pub open spec fn opened(f: FrameView, kind: LabelKind, e: int, bt: BlockType) -> FrameView {
    FrameView {
        labels: f.labels.push(
            Label {
                kind,
                cont: (e + 1) as usize,
                height: f.stack.len() as usize,
                arity: arity_of(bt),
            },
        ),
        ..f
    }
}

/// A branch to the label `l`, counted from the innermost region: the
/// values it carries are moved down to the height of the target, the
/// regions inside the target are closed, and execution goes on after the
/// target, or at the start of its body if it is a loop.
pub open spec fn branch(f: FrameView, l: int) -> Flow {
    if l < 0 || l >= f.labels.len() {
        Flow::Stop(Trap::InvalidCode)
    } else {
        let t = f.labels[f.labels.len() - 1 - l];
        if t.height + t.arity > f.stack.len() {
            Flow::Stop(Trap::InvalidCode)
        } else {
            Flow::Go(
                FrameView {
                    pc: t.cont as int,
                    stack: f.stack.subrange(0, t.height as int) + f.stack.subrange(
                        f.stack.len() - t.arity,
                        f.stack.len() as int,
                    ),
                    labels: f.labels.subrange(
                        0,
                        if t.kind is Loop {
                            f.labels.len() - l
                        } else {
                            f.labels.len() - l - 1
                        },
                    ),
                    ..f
                },
            )
        }
    }
}

/// The instructions of structured control.
pub open spec fn control(code: CodeView, f: FrameView, ins: Instr) -> Flow {
    match ins {
        Instr::Block(bt) => match scan(code.instrs, f.pc + 1, 0, false) {
            Some(e) => Flow::Go(advance(opened(f, LabelKind::Block, e, bt))),
            None => Flow::Stop(Trap::InvalidCode),
        },
        Instr::Loop(_) => Flow::Go(
            advance(
                FrameView {
                    labels: f.labels.push(
                        Label {
                            kind: LabelKind::Loop,
                            cont: (f.pc + 1) as usize,
                            height: f.stack.len() as usize,
                            arity: 0,
                        },
                    ),
                    ..f
                },
            ),
        ),
        Instr::If(bt) => if f.stack.len() == 0 {
            Flow::Stop(Trap::InvalidCode)
        } else if f.stack.last() as u32 != 0 {
            match scan(code.instrs, f.pc + 1, 0, false) {
                Some(e) => Flow::Go(advance(opened(popped(f), LabelKind::If, e, bt))),
                None => Flow::Stop(Trap::InvalidCode),
            }
        } else {
            match scan(code.instrs, f.pc + 1, 0, true) {
                Some(t) => if code.instrs[t] is Else {
                    match scan(code.instrs, t + 1, 0, false) {
                        Some(e) => Flow::Go(
                            FrameView { pc: t + 1, ..opened(popped(f), LabelKind::If, e, bt) },
                        ),
                        None => Flow::Stop(Trap::InvalidCode),
                    }
                } else {
                    Flow::Go(FrameView { pc: t + 1, ..popped(f) })
                },
                None => Flow::Stop(Trap::InvalidCode),
            }
        },
        Instr::Else => if f.labels.len() == 0 {
            Flow::Stop(Trap::InvalidCode)
        } else {
            Flow::Go(
                FrameView { pc: f.labels.last().cont as int, labels: f.labels.drop_last(), ..f },
            )
        },
        Instr::End => if f.labels.len() == 0 {
            Flow::Stop(Trap::InvalidCode)
        } else {
            Flow::Go(advance(FrameView { labels: f.labels.drop_last(), ..f }))
        },
        Instr::Br(l) => branch(f, l as int),
        Instr::BrIf(l) => if f.stack.len() == 0 {
            Flow::Stop(Trap::InvalidCode)
        } else if f.stack.last() as u32 != 0 {
            branch(popped(f), l as int)
        } else {
            Flow::Go(advance(popped(f)))
        },
        Instr::BrTable { first, count } => if f.stack.len() == 0 || first + count
            >= code.labels.len() {
            Flow::Stop(Trap::InvalidCode)
        } else {
            let i = f.stack.last() as u32;
            branch(
                popped(f),
                code.labels[if i < count {
                    first + i
                } else {
                    first + count
                }] as int,
            )
        },
        Instr::Return => branch(f, f.labels.len() - 1),
        _ => Flow::Stop(Trap::InvalidCode),
    }
}

/// What a numeric result does to the activation `f`, from which the
/// operands have been taken.
pub open spec fn settle(f: FrameView, n: Num) -> Flow {
    match n {
        Num::Value(v) => Flow::Go(advance(pushed(f, v))),
        Num::Trap(t) => Flow::Stop(t),
    }
}

/// The instructions that touch only the operand stack and the locals.
pub open spec fn basic(f: FrameView, ins: Instr) -> Flow {
    let n = f.stack.len() as int;
    match ins {
        Instr::Nop => Flow::Go(advance(f)),
        Instr::Unreachable => Flow::Stop(Trap::Unreachable),
        Instr::Drop => if n < 1 {
            Flow::Stop(Trap::InvalidCode)
        } else {
            Flow::Go(advance(popped(f)))
        },
        Instr::Select => if n < 3 {
            Flow::Stop(Trap::InvalidCode)
        } else {
            Flow::Go(
                advance(
                    FrameView {
                        stack: f.stack.subrange(0, n - 3).push(
                            if f.stack[n - 1] as u32 != 0 {
                                f.stack[n - 3]
                            } else {
                                f.stack[n - 2]
                            },
                        ),
                        ..f
                    },
                ),
            )
        },
        Instr::LocalGet(x) => if x >= f.locals.len() {
            Flow::Stop(Trap::InvalidCode)
        } else {
            Flow::Go(advance(pushed(f, f.locals[x as int])))
        },
        Instr::LocalSet(x) => if x >= f.locals.len() || n < 1 {
            Flow::Stop(Trap::InvalidCode)
        } else {
            Flow::Go(
                advance(FrameView { locals: f.locals.update(x as int, f.stack.last()), ..popped(f) }),
            )
        },
        Instr::LocalTee(x) => if x >= f.locals.len() || n < 1 {
            Flow::Stop(Trap::InvalidCode)
        } else {
            Flow::Go(advance(FrameView { locals: f.locals.update(x as int, f.stack.last()), ..f }))
        },
        Instr::I32Const(v) => Flow::Go(advance(pushed(f, (v as u32) as u64))),
        Instr::I64Const(v) => Flow::Go(advance(pushed(f, v as u64))),
        Instr::F32Const(b) => Flow::Go(advance(pushed(f, b as u64))),
        Instr::F64Const(b) => Flow::Go(advance(pushed(f, b))),
        Instr::Numeric(op) => match numeric_sig(op) {
            Some(s) => if s.binary {
                if n < 2 {
                    Flow::Stop(Trap::InvalidCode)
                } else {
                    settle(popped(popped(f)), binary(op, f.stack[n - 2], f.stack[n - 1]))
                }
            } else {
                if n < 1 {
                    Flow::Stop(Trap::InvalidCode)
                } else {
                    settle(popped(f), unary(op, f.stack[n - 1]))
                }
            },
            None => Flow::Stop(Trap::InvalidCode),
        },
        _ => Flow::Stop(Trap::InvalidCode),
    }
}

/// The value that a load pushes for the integer `raw` read from memory:
/// a narrow signed load extends the sign to the width of the result.
pub open spec fn extended(raw: int, a: Access) -> u64 {
    let narrow = pow256(a.width as int);
    let full: int = if a.ty == ValType::I32 || a.ty == ValType::F32 {
        0x1_0000_0000
    } else {
        0x1_0000_0000_0000_0000
    };
    if a.signed && 2 * raw >= narrow {
        (raw + full - narrow) as u64
    } else {
        raw as u64
    }
}

/// 256 to the power `n`.
pub open spec fn pow256(n: int) -> int
    decreases n,
{
    if n <= 0 {
        1
    } else {
        256 * pow256(n - 1)
    }
}

/// The memory after the low `width` bytes of `v` are written at `at`,
/// the lowest first.
pub open spec fn written(mem: Seq<u8>, at: int, v: u64, width: int) -> Seq<u8> {
    Seq::new(
        mem.len(),
        |i: int|
            if at <= i < at + width {
                ((v as int / pow256(i - at)) % 256) as u8
            } else {
                mem[i]
            },
    )
}

/// `n` zero bytes.
pub open spec fn zero_bytes(n: int) -> Seq<u8> {
    Seq::new(n as nat, |i: int| 0u8)
}

/// `n` zero values.
pub open spec fn zeros(n: int) -> Seq<u64> {
    Seq::new(n as nat, |i: int| 0u64)
}

/// The instructions that read or change the instance.
pub open spec fn stateful(inst: StoreView, f: FrameView, ins: Instr) -> (StoreView, Flow) {
    let n = f.stack.len() as int;
    match ins {
        Instr::GlobalGet(x) => if x >= inst.globals.len() {
            (inst, Flow::Stop(Trap::InvalidCode))
        } else {
            (inst, Flow::Go(advance(pushed(f, inst.globals[x as int]))))
        },
        Instr::GlobalSet(x) => if x >= inst.globals.len() || n < 1 {
            (inst, Flow::Stop(Trap::InvalidCode))
        } else {
            (
                StoreView { globals: inst.globals.update(x as int, f.stack.last()), ..inst },
                Flow::Go(advance(popped(f))),
            )
        },
        Instr::Load { op, align, offset } => match access_of(op) {
            Some(a) => if n < 1 {
                (inst, Flow::Stop(Trap::InvalidCode))
            } else {
                let at = (f.stack.last() as u32) + offset;
                if at + a.width > inst.memory.len() {
                    (inst, Flow::Stop(Trap::MemoryOutOfBounds))
                } else {
                    (
                        inst,
                        Flow::Go(
                            advance(
                                pushed(popped(f), extended(le_at(inst.memory, at, a.width as int), a)),
                            ),
                        ),
                    )
                }
            },
            None => (inst, Flow::Stop(Trap::InvalidCode)),
        },
        Instr::Store { op, align, offset } => match access_of(op) {
            Some(a) => if n < 2 {
                (inst, Flow::Stop(Trap::InvalidCode))
            } else {
                let at = (f.stack[n - 2] as u32) + offset;
                if at + a.width > inst.memory.len() {
                    (inst, Flow::Stop(Trap::MemoryOutOfBounds))
                } else {
                    (
                        StoreView {
                            memory: written(inst.memory, at, f.stack[n - 1], a.width as int),
                            ..inst
                        },
                        Flow::Go(advance(popped(popped(f)))),
                    )
                }
            },
            None => (inst, Flow::Stop(Trap::InvalidCode)),
        },
        Instr::MemorySize => (
            inst,
            Flow::Go(advance(pushed(f, (inst.memory.len() / PAGE_SIZE as nat) as u64))),
        ),
        Instr::MemoryGrow => if n < 1 {
            (inst, Flow::Stop(Trap::InvalidCode))
        } else {
            let pages = inst.memory.len() / PAGE_SIZE as nat;
            let delta = f.stack.last() as u32;
            if pages + delta <= inst.max_pages && inst.max_pages <= PAGE_LIMIT {
                (
                    StoreView {
                        memory: inst.memory + zero_bytes(delta * PAGE_SIZE),
                        ..inst
                    },
                    Flow::Go(advance(pushed(popped(f), pages as u64))),
                )
            } else {
                (inst, Flow::Go(advance(pushed(popped(f), 0xffff_ffffu64))))
            }
        },
        _ => (inst, Flow::Stop(Trap::InvalidCode)),
    }
}

/// The type of the function `fi` that the module defines, if it has a body.
pub open spec fn callee_type(d: DraftView, fi: int) -> Option<FuncTypeView> {
    if 0 <= fi < d.funcs.len() && fi < d.codes.len() && d.funcs[fi] < d.types.len() {
        Some(d.types[d.funcs[fi] as int])
    } else {
        None
    }
}

/// The activation of the function `fi` on the arguments `args`: the locals
/// are the arguments followed by zeros, the operand stack is empty, and the
/// body is the only open region.
pub open spec fn activation(d: DraftView, fi: int, args: Seq<u64>) -> Option<FrameView> {
    match callee_type(d, fi) {
        Some(ft) => {
            let total = local_count(d.codes[fi].locals, 0, 0);
            if args.len() != ft.params.len() || args.len() + total > u32::MAX {
                None
            } else {
                Some(
                    FrameView {
                        func: fi,
                        pc: 0,
                        locals: args + zeros(total),
                        stack: Seq::empty(),
                        labels: seq![
                            Label {
                                kind: LabelKind::Func,
                                cont: d.codes[fi].instrs.len() as usize,
                                height: 0,
                                arity: ft.results.len() as usize,
                            },
                        ],
                        arity: ft.results.len() as int,
                    },
                )
            }
        },
        None => None,
    }
}

/// A call of the function `fi` from the activation `f`, which has the
/// arguments on top of its operand stack.
pub open spec fn invoke(d: DraftView, m: MachineView, f: FrameView, fi: int) -> (MachineView, Status) {
    match callee_type(d, fi) {
        Some(ft) => {
            let n = ft.params.len() as int;
            if f.stack.len() < n {
                (m, Status::Trapped(Trap::InvalidCode))
            } else if m.callers.len() + 1 >= CALL_DEPTH {
                (m, Status::Trapped(Trap::CallStackExhausted))
            } else {
                match activation(d, fi, f.stack.subrange(f.stack.len() - n, f.stack.len() as int)) {
                    Some(callee) => (
                        MachineView {
                            frame: callee,
                            callers: m.callers.push(
                                advance(
                                    FrameView {
                                        stack: f.stack.subrange(0, f.stack.len() - n),
                                        ..f
                                    },
                                ),
                            ),
                        },
                        Status::Running,
                    ),
                    None => (m, Status::Trapped(Trap::InvalidCode)),
                }
            }
        },
        None => (m, Status::Trapped(Trap::InvalidCode)),
    }
}

/// An indirect call through the table, of a function that has to be of
/// type `t`.
pub open spec fn invoke_indirect(inst: InstanceView, m: MachineView, t: u32) -> (MachineView, Status) {
    let d = inst.module;
    let f = m.frame;
    if f.stack.len() == 0 || t >= d.types.len() {
        (m, Status::Trapped(Trap::InvalidCode))
    } else {
        let i = f.stack.last() as u32;
        if i >= inst.store.table.len() {
            (m, Status::Trapped(Trap::UndefinedElement))
        } else {
            match inst.store.table[i as int] {
                None => (m, Status::Trapped(Trap::NullFunctionReference)),
                Some(fi) => match callee_type(d, fi as int) {
                    Some(ft) => if ft != d.types[t as int] {
                        (m, Status::Trapped(Trap::SignatureMismatch))
                    } else {
                        invoke(d, m, popped(f), fi as int)
                    },
                    None => (m, Status::Trapped(Trap::InvalidCode)),
                },
            }
        }
    }
}

/// The end of the current activation: its results go to the caller, or
/// end the call if there is none.
pub open spec fn finish(m: MachineView) -> (MachineView, Status) {
    let f = m.frame;
    if f.arity < 0 || f.stack.len() < f.arity {
        (m, Status::Trapped(Trap::InvalidCode))
    } else if m.callers.len() == 0 {
        (
            m,
            Status::Done(
                if f.arity == 0 {
                    None
                } else {
                    Some(f.stack.last())
                },
            ),
        )
    } else {
        let c = m.callers.last();
        (
            MachineView {
                frame: FrameView {
                    stack: c.stack + f.stack.subrange(f.stack.len() - f.arity, f.stack.len() as int),
                    ..c
                },
                callers: m.callers.drop_last(),
            },
            Status::Running,
        )
    }
}

/// Whether the instruction is one of structured control.
pub open spec fn is_control(ins: Instr) -> bool {
    ins is Block || ins is Loop || ins is If || ins is Else || ins is End || ins is Br
        || ins is BrIf || ins is BrTable || ins is Return
}

/// Whether the instruction reads or changes the instance.
pub open spec fn is_stateful(ins: Instr) -> bool {
    ins is GlobalGet || ins is GlobalSet || ins is Load || ins is Store || ins is MemorySize
        || ins is MemoryGrow
}

/// The machine after the flow of one instruction.
pub open spec fn follow(inst: InstanceView, m: MachineView, flow: Flow) -> Step {
    match flow {
        Flow::Go(f) => Step { inst, mach: MachineView { frame: f, ..m }, status: Status::Running },
        Flow::Stop(t) => Step { inst, mach: m, status: Status::Trapped(t) },
    }
}

/// One step of the machine.
pub open spec fn step(inst: InstanceView, m: MachineView) -> Step {
    let d = inst.module;
    let f = m.frame;
    if f.labels.len() == 0 {
        let (m2, status) = finish(m);
        Step { inst, mach: m2, status }
    } else if !(0 <= f.func < d.codes.len()) || !(0 <= f.pc < d.codes[f.func].instrs.len()) {
        Step { inst, mach: m, status: Status::Trapped(Trap::InvalidCode) }
    } else {
        let code = d.codes[f.func];
        let ins = code.instrs[f.pc];
        match ins {
            Instr::Call(fi) => {
                let (m2, status) = invoke(d, m, f, fi as int);
                Step { inst, mach: m2, status }
            },
            Instr::CallIndirect(t) => {
                let (m2, status) = invoke_indirect(inst, m, t);
                Step { inst, mach: m2, status }
            },
            _ => if is_control(ins) {
                follow(inst, m, control(code, f, ins))
            } else if is_stateful(ins) {
                let (store, flow) = stateful(inst.store, f, ins);
                follow(InstanceView { store, ..inst }, m, flow)
            } else {
                follow(inst, m, basic(f, ins))
            },
        }
    }
}

/// Runs the machine until the call ends or traps, for at most `fuel`
/// steps.
pub open spec fn run(inst: InstanceView, m: MachineView, fuel: nat) -> Step
    decreases fuel,
{
    if fuel == 0 {
        Step { inst, mach: m, status: Status::Trapped(Trap::StepLimit) }
    } else {
        let s = step(inst, m);
        if s.status is Running {
            run(s.inst, s.mach, (fuel - 1) as nat)
        } else {
            s
        }
    }
}

} // verus!

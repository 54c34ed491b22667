//! The interpreter: the abstract machine on vectors and machine integers.
use vstd::prelude::*;
use crate::types::{BlockType, FuncType, Instr, Code, Draft, views, lemma_views_push};
use crate::ops::{numeric_signature, memory_access, Access};
use crate::types::ValType;
use crate::format::le_at;
use crate::numeric::{Num, apply_unary, apply_binary};
use crate::value::Trap;
use crate::jumps::{Jump, jump_ok, jumps_ok, tables_ok, target};
use crate::validate::count_locals;
use crate::semantics::{
    PAGE_SIZE, PAGE_LIMIT, CALL_DEPTH, LabelKind, Label, FrameView, MachineView, StoreView,
    InstanceView, Status, Flow, Step, arity_of, advance, pushed, branch, control, settle,
    basic, extended, pow256, written, zero_bytes, zeros, stateful, callee_type, activation,
    invoke, invoke_indirect, finish, is_control, is_stateful, step, run,
};

verus! {

/// An activation.
pub struct Frame {
    pub func: usize,
    pub pc: usize,
    pub locals: Vec<u64>,
    pub stack: Vec<u64>,
    pub labels: Vec<Label>,
    pub arity: usize,
}

impl View for Frame {
    type V = FrameView;

    open spec fn view(&self) -> FrameView {
        FrameView {
            func: self.func as int,
            pc: self.pc as int,
            locals: self.locals@,
            stack: self.stack@,
            labels: self.labels@,
            arity: self.arity as int,
        }
    }
}

/// A running call.
pub struct Machine {
    pub frame: Frame,
    pub callers: Vec<Frame>,
}

impl View for Machine {
    type V = MachineView;

    open spec fn view(&self) -> MachineView {
        MachineView { frame: self.frame@, callers: views(self.callers@) }
    }
}

/// What an instance owns.
pub struct Store {
    pub memory: Vec<u8>,
    pub max_pages: u32,
    pub table: Vec<Option<u32>>,
    pub globals: Vec<u64>,
}

impl View for Store {
    type V = StoreView;

    open spec fn view(&self) -> StoreView {
        StoreView {
            memory: self.memory@,
            max_pages: self.max_pages,
            table: self.table@,
            globals: self.globals@,
        }
    }
}

/// What an instruction did to the current activation.
#[derive(Clone, Copy, PartialEq, Eq, Structural, Debug)]
pub enum Outcome {
    Go,
    Stop(Trap),
}

/// The instruction did to the activation, now `f`, what `flow` says. After
/// a trap the activation is of no account.
pub open spec fn did(out: Outcome, f: FrameView, flow: Flow) -> bool {
    match flow {
        Flow::Go(g) => out == Outcome::Go && f =~= g,
        Flow::Stop(t) => out == Outcome::Stop(t),
    }
}

/// The position that a target of the table stands for.
fn target_of(t: usize, len: usize) -> (r: Option<usize>)
    ensures
        match r {
            Some(e) => target(t, len as int) == Some(e as int) && e < len,
            None => target(t, len as int) is None,
        },
{
    if t < len {
        Some(t)
    } else {
        None
    }
}

fn arity(bt: BlockType) -> (r: usize)
    ensures
        r == arity_of(bt),
{
    match bt {
        BlockType::Empty => 0,
        BlockType::Value(_) => 1,
    }
}

/// Branches to the label `l`.
#[verifier::rlimit(50)]
pub fn do_branch(f: &mut Frame, l: usize) -> (out: Outcome)
    ensures
        did(out, final(f)@, branch(old(f)@, l as int)),
{
    let count: usize = f.labels.len();
    if l >= count {
        return Outcome::Stop(Trap::InvalidCode);
    }
    let t: Label = f.labels[count - 1 - l];
    let n: usize = f.stack.len();
    if t.arity > n || t.height > n - t.arity {
        return Outcome::Stop(Trap::InvalidCode);
    }
    let mut k: usize = 0;
    while k < t.arity
        invariant
            k <= t.arity,
            t.height + t.arity <= n,
            f.stack.len() == n,
            n == old(f).stack.len(),
            forall|j: int|
                t.height <= j < t.height + k ==> #[trigger] f.stack@[j] == old(f).stack@[j
                    - t.height + n - t.arity],
            forall|j: int|
                0 <= j < n && !(t.height <= j < t.height + k) ==> #[trigger] f.stack@[j] == old(
                    f,
                ).stack@[j],
            f.labels == old(f).labels,
            f.locals == old(f).locals,
            f.func == old(f).func,
            f.arity == old(f).arity,
        decreases t.arity - k,
    {
        let v: u64 = f.stack[n - t.arity + k];
        f.stack.set(t.height + k, v);
        k += 1;
    }
    f.stack.truncate(t.height + t.arity);
    let keep: usize = match t.kind {
        LabelKind::Loop => count - l,
        _ => count - l - 1,
    };
    f.labels.truncate(keep);
    f.pc = t.cont;
    Outcome::Go
}

/// Executes an instruction of structured control.
#[verifier::rlimit(50)]
pub fn do_control(code: &Code, jumps: &Vec<Jump>, f: &mut Frame, ins: Instr) -> (out: Outcome)
    requires
        old(f).pc < code.instrs.len(),
        ins == code.instrs@[old(f).pc as int],
        jumps_ok(code.instrs@, jumps@),
    ensures
        did(out, final(f)@, control(code@, old(f)@, ins)),
{
    let n: usize = code.instrs.len();
    let j: Jump = jumps[f.pc];
    assert(jump_ok(code.instrs@, f.pc as int, j));
    match ins {
        Instr::Block(bt) => match target_of(j.end, n) {
            Some(e) => {
                f.labels.push(
                    Label { kind: LabelKind::Block, cont: e + 1, height: f.stack.len(), arity: arity(bt) },
                );
                f.pc = f.pc + 1;
                Outcome::Go
            },
            None => Outcome::Stop(Trap::InvalidCode),
        },
        Instr::Loop(_) => {
            f.labels.push(
                Label { kind: LabelKind::Loop, cont: f.pc + 1, height: f.stack.len(), arity: 0 },
            );
            f.pc = f.pc + 1;
            Outcome::Go
        },
        Instr::If(bt) => {
            let c: u64 = match f.stack.pop() {
                Some(c) => c,
                None => {
                    return Outcome::Stop(Trap::InvalidCode);
                },
            };
            if c as u32 != 0 {
                match target_of(j.end, n) {
                    Some(e) => {
                        f.labels.push(
                            Label {
                                kind: LabelKind::If,
                                cont: e + 1,
                                height: f.stack.len(),
                                arity: arity(bt),
                            },
                        );
                        f.pc = f.pc + 1;
                        Outcome::Go
                    },
                    None => Outcome::Stop(Trap::InvalidCode),
                }
            } else {
                match target_of(j.alt, n) {
                    Some(t) => {
                        let at_else = match code.instrs[t] {
                            Instr::Else => true,
                            _ => false,
                        };
                        if at_else {
                            match target_of(j.else_end, n) {
                                Some(e) => {
                                    f.labels.push(
                                        Label {
                                            kind: LabelKind::If,
                                            cont: e + 1,
                                            height: f.stack.len(),
                                            arity: arity(bt),
                                        },
                                    );
                                    f.pc = t + 1;
                                    Outcome::Go
                                },
                                None => Outcome::Stop(Trap::InvalidCode),
                            }
                        } else {
                            f.pc = t + 1;
                            Outcome::Go
                        }
                    },
                    None => Outcome::Stop(Trap::InvalidCode),
                }
            }
        },
        Instr::Else => match f.labels.pop() {
            Some(l) => {
                f.pc = l.cont;
                Outcome::Go
            },
            None => Outcome::Stop(Trap::InvalidCode),
        },
        Instr::End => match f.labels.pop() {
            Some(_) => {
                f.pc = f.pc + 1;
                Outcome::Go
            },
            None => Outcome::Stop(Trap::InvalidCode),
        },
        Instr::Br(l) => do_branch(f, l as usize),
        Instr::BrIf(l) => match f.stack.pop() {
            Some(c) => {
                if c as u32 != 0 {
                    do_branch(f, l as usize)
                } else {
                    f.pc = f.pc + 1;
                    Outcome::Go
                }
            },
            None => Outcome::Stop(Trap::InvalidCode),
        },
        Instr::BrTable { first, count } => {
            if f.stack.len() == 0 || first as u64 + count as u64 >= code.labels.len() as u64 {
                return Outcome::Stop(Trap::InvalidCode);
            }
            let i: u32 = f.stack.pop().unwrap() as u32;
            let slot: usize = if i < count {
                first as usize + i as usize
            } else {
                first as usize + count as usize
            };
            do_branch(f, code.labels[slot] as usize)
        },
        Instr::Return => {
            if f.labels.len() == 0 {
                Outcome::Stop(Trap::InvalidCode)
            } else {
                do_branch(f, f.labels.len() - 1)
            }
        },
        _ => Outcome::Stop(Trap::InvalidCode),
    }
}

fn do_settle(f: &mut Frame, n: Num) -> (out: Outcome)
    requires
        old(f).pc < usize::MAX,
    ensures
        did(out, final(f)@, settle(old(f)@, n)),
{
    match n {
        Num::Value(v) => {
            f.stack.push(v);
            f.pc = f.pc + 1;
            Outcome::Go
        },
        Num::Trap(t) => Outcome::Stop(t),
    }
}

fn do_push(f: &mut Frame, v: u64) -> (out: Outcome)
    requires
        old(f).pc < usize::MAX,
    ensures
        did(out, final(f)@, Flow::Go(advance(pushed(old(f)@, v)))),
{
    f.stack.push(v);
    f.pc = f.pc + 1;
    Outcome::Go
}

/// Executes an instruction that touches only the operand stack and the
/// locals.
#[verifier::rlimit(50)]
pub fn do_basic(f: &mut Frame, ins: Instr) -> (out: Outcome)
    requires
        old(f).pc < usize::MAX,
    ensures
        did(out, final(f)@, basic(old(f)@, ins)),
{
    let n: usize = f.stack.len();
    match ins {
        Instr::Nop => {
            f.pc = f.pc + 1;
            Outcome::Go
        },
        Instr::Unreachable => Outcome::Stop(Trap::Unreachable),
        Instr::Drop => {
            if n < 1 {
                Outcome::Stop(Trap::InvalidCode)
            } else {
                f.stack.pop();
                f.pc = f.pc + 1;
                Outcome::Go
            }
        },
        Instr::Select => {
            if n < 3 {
                Outcome::Stop(Trap::InvalidCode)
            } else {
                let c: u64 = f.stack[n - 1];
                let second: u64 = f.stack[n - 2];
                let first: u64 = f.stack[n - 3];
                f.stack.truncate(n - 3);
                f.stack.push(if c as u32 != 0 { first } else { second });
                f.pc = f.pc + 1;
                Outcome::Go
            }
        },
        Instr::LocalGet(x) => {
            if x as usize >= f.locals.len() {
                Outcome::Stop(Trap::InvalidCode)
            } else {
                let v: u64 = f.locals[x as usize];
                do_push(f, v)
            }
        },
        Instr::LocalSet(x) => {
            if x as usize >= f.locals.len() || n < 1 {
                Outcome::Stop(Trap::InvalidCode)
            } else {
                let v: u64 = f.stack.pop().unwrap();
                f.locals.set(x as usize, v);
                f.pc = f.pc + 1;
                Outcome::Go
            }
        },
        Instr::LocalTee(x) => {
            if x as usize >= f.locals.len() || n < 1 {
                Outcome::Stop(Trap::InvalidCode)
            } else {
                let v: u64 = f.stack[n - 1];
                f.locals.set(x as usize, v);
                f.pc = f.pc + 1;
                Outcome::Go
            }
        },
        Instr::I32Const(v) => do_push(f, (v as u32) as u64),
        Instr::I64Const(v) => do_push(f, v as u64),
        Instr::F32Const(b) => do_push(f, b as u64),
        Instr::F64Const(b) => do_push(f, b),
        Instr::Numeric(op) => match numeric_signature(op) {
            Some(s) => {
                if s.binary {
                    if n < 2 {
                        Outcome::Stop(Trap::InvalidCode)
                    } else {
                        let b: u64 = f.stack.pop().unwrap();
                        let a: u64 = f.stack.pop().unwrap();
                        do_settle(f, apply_binary(op, a, b))
                    }
                } else {
                    if n < 1 {
                        Outcome::Stop(Trap::InvalidCode)
                    } else {
                        let a: u64 = f.stack.pop().unwrap();
                        do_settle(f, apply_unary(op, a))
                    }
                }
            },
            None => Outcome::Stop(Trap::InvalidCode),
        },
        _ => Outcome::Stop(Trap::InvalidCode),
    }
}

/// The powers of 256 that the memory accesses use.
pub proof fn lemma_pow256_values()
    ensures
        pow256(0) == 1,
        pow256(1) == 0x100,
        pow256(2) == 0x1_0000,
        pow256(3) == 0x100_0000,
        pow256(4) == 0x1_0000_0000,
        pow256(5) == 0x100_0000_0000,
        pow256(6) == 0x1_0000_0000_0000,
        pow256(7) == 0x100_0000_0000_0000,
        pow256(8) == 0x1_0000_0000_0000_0000,
{
    reveal_with_fuel(pow256, 10);
}

/// Reads `width` bytes of memory as a little-endian integer.
fn load_raw(mem: &Vec<u8>, at: usize, width: u8) -> (r: u64)
    requires
        at + width <= mem.len(),
        width == 1 || width == 2 || width == 4 || width == 8,
    ensures
        r == le_at(mem@, at as int, width as int),
        r < pow256(width as int),
{
    proof {
        reveal_with_fuel(le_at, 9);
        lemma_pow256_values();
    }
    if width == 1 {
        mem[at] as u64
    } else if width == 2 {
        mem[at] as u64 + 256 * (mem[at + 1] as u64)
    } else if width == 4 {
        mem[at] as u64 + 256 * (mem[at + 1] as u64 + 256 * (mem[at + 2] as u64 + 256 * (mem[at
            + 3] as u64)))
    } else {
        mem[at] as u64 + 256 * (mem[at + 1] as u64 + 256 * (mem[at + 2] as u64 + 256 * (mem[at
            + 3] as u64 + 256 * (mem[at + 4] as u64 + 256 * (mem[at + 5] as u64 + 256 * (mem[at
            + 6] as u64 + 256 * (mem[at + 7] as u64)))))))
    }
}

/// Extends what a load has read to the value it pushes.
fn extend(raw: u64, a: Access) -> (r: u64)
    requires
        raw < pow256(a.width as int),
        a.width == 1 || a.width == 2 || a.width == 4 || a.width == 8,
        a.signed ==> a.width < 8 && (a.width < 4 || a.ty == ValType::I64),
        a.ty == ValType::I32 || a.ty == ValType::F32 ==> a.width <= 4,
    ensures
        r == extended(raw as int, a),
{
    proof {
        lemma_pow256_values();
    }
    if !a.signed {
        raw
    } else {
        let narrow: u64 = if a.width == 1 {
            0x100
        } else if a.width == 2 {
            0x1_0000
        } else {
            0x1_0000_0000
        };
        if raw >= narrow / 2 {
            match a.ty {
                ValType::I32 | ValType::F32 => raw + (0x1_0000_0000 - narrow),
                _ => raw + (0xffff_ffff_ffff_ffff - narrow + 1),
            }
        } else {
            raw
        }
    }
}

/// Writes the low `width` bytes of `v` to memory, the lowest first.
fn store_raw(mem: &mut Vec<u8>, at: usize, v: u64, width: u8)
    requires
        at + width <= old(mem).len(),
        width <= 8,
    ensures
        final(mem)@ == written(old(mem)@, at as int, v, width as int),
{
    let mut rest: u64 = v;
    let mut k: u8 = 0;
    assert(mem@ =~= written(old(mem)@, at as int, v, 0));
    while k < width
        invariant
            k <= width <= 8,
            at + width <= mem.len(),
            mem.len() == old(mem).len(),
            rest == v as int / pow256(k as int),
            mem@ == written(old(mem)@, at as int, v, k as int),
        decreases width - k,
    {
        proof {
            lemma_pow256_values();
            reveal_with_fuel(pow256, 2);
            vstd::arithmetic::div_mod::lemma_div_denominator(v as int, pow256(k as int), 256);
            assert(pow256(k as int + 1) == 256 * pow256(k as int));
            assert(pow256(k as int) * 256 == 256 * pow256(k as int)) by (nonlinear_arith);
        }
        mem.set(at + k as usize, (rest % 256) as u8);
        rest = rest / 256;
        k = k + 1;
        assert(mem@ =~= written(old(mem)@, at as int, v, k as int));
    }
}

/// Executes an instruction that reads or changes the store.
#[verifier::rlimit(50)]
pub fn do_stateful(store: &mut Store, f: &mut Frame, ins: Instr) -> (out: Outcome)
    requires
        old(f).pc < usize::MAX,
    ensures
        did(out, final(f)@, stateful(old(store)@, old(f)@, ins).1),
        final(store)@ =~= stateful(old(store)@, old(f)@, ins).0,
{
    let n: usize = f.stack.len();
    match ins {
        Instr::GlobalGet(x) => {
            if x as usize >= store.globals.len() {
                Outcome::Stop(Trap::InvalidCode)
            } else {
                f.stack.push(store.globals[x as usize]);
                f.pc = f.pc + 1;
                Outcome::Go
            }
        },
        Instr::GlobalSet(x) => {
            if x as usize >= store.globals.len() || n < 1 {
                Outcome::Stop(Trap::InvalidCode)
            } else {
                let v: u64 = f.stack.pop().unwrap();
                store.globals.set(x as usize, v);
                f.pc = f.pc + 1;
                Outcome::Go
            }
        },
        Instr::Load { op, align, offset } => match memory_access(op) {
            Some(a) => {
                if n < 1 {
                    Outcome::Stop(Trap::InvalidCode)
                } else {
                    let at: u64 = (f.stack[n - 1] as u32) as u64 + offset as u64;
                    if at + a.width as u64 > store.memory.len() as u64 {
                        Outcome::Stop(Trap::MemoryOutOfBounds)
                    } else {
                        let raw: u64 = load_raw(&store.memory, at as usize, a.width);
                        f.stack.pop();
                        f.stack.push(extend(raw, a));
                        f.pc = f.pc + 1;
                        Outcome::Go
                    }
                }
            },
            None => Outcome::Stop(Trap::InvalidCode),
        },
        Instr::Store { op, align, offset } => match memory_access(op) {
            Some(a) => {
                if n < 2 {
                    Outcome::Stop(Trap::InvalidCode)
                } else {
                    let at: u64 = (f.stack[n - 2] as u32) as u64 + offset as u64;
                    if at + a.width as u64 > store.memory.len() as u64 {
                        Outcome::Stop(Trap::MemoryOutOfBounds)
                    } else {
                        let v: u64 = f.stack[n - 1];
                        store_raw(&mut store.memory, at as usize, v, a.width);
                        f.stack.truncate(n - 2);
                        f.pc = f.pc + 1;
                        Outcome::Go
                    }
                }
            },
            None => Outcome::Stop(Trap::InvalidCode),
        },
        Instr::MemorySize => {
            f.stack.push((store.memory.len() / PAGE_SIZE) as u64);
            f.pc = f.pc + 1;
            Outcome::Go
        },
        Instr::MemoryGrow => {
            if n < 1 {
                Outcome::Stop(Trap::InvalidCode)
            } else {
                let pages: usize = store.memory.len() / PAGE_SIZE;
                let delta: u32 = f.stack.pop().unwrap() as u32;
                if pages as u64 + delta as u64 <= store.max_pages as u64 && store.max_pages
                    <= PAGE_LIMIT {
                    let size: usize = store.memory.len() + delta as usize * PAGE_SIZE;
                    store.memory.resize(size, 0u8);
                    assert(store.memory@ =~= old(store).memory@ + zero_bytes(delta * PAGE_SIZE));
                    f.stack.push(pages as u64);
                } else {
                    f.stack.push(0xffff_ffffu64);
                }
                f.pc = f.pc + 1;
                Outcome::Go
            }
        },
        _ => Outcome::Stop(Trap::InvalidCode),
    }
}

/// The function `fi` of the module, if it has a type and a body.
fn callee<'a>(d: &'a Draft, fi: usize) -> (r: Option<(&'a FuncType, &'a Code)>)
    ensures
        match r {
            Some((ft, code)) => callee_type(d@, fi as int) == Some(ft@) && fi < d.codes.len()
                && code == &d.codes[fi as int] && code@ == d@.codes[fi as int],
            None => callee_type(d@, fi as int) is None,
        },
{
    if fi < d.funcs.len() && fi < d.codes.len() && (d.funcs[fi] as usize) < d.types.len() {
        Some((&d.types[d.funcs[fi] as usize], &d.codes[fi]))
    } else {
        None
    }
}

/// Builds the activation of the function `fi` on `args`.
pub fn activate(d: &Draft, fi: usize, args: Vec<u64>) -> (r: Option<Frame>)
    ensures
        match r {
            Some(f) => activation(d@, fi as int, args@) == Some(f@),
            None => activation(d@, fi as int, args@) is None,
        },
{
    let (ft, code) = match callee(d, fi) {
        Some(x) => x,
        None => {
            return None;
        },
    };
    let total: u64 = match count_locals(&code.locals) {
        Some(n) => n,
        None => {
            return None;
        },
    };
    if args.len() != ft.params.len() || args.len() > u32::MAX as usize || args.len() as u64
        + total > u32::MAX as u64 {
        return None;
    }
    let mut locals = args;
    let size: usize = locals.len() + total as usize;
    locals.resize(size, 0u64);
    assert(locals@ =~= args@ + zeros(total as int));
    let mut labels: Vec<Label> = Vec::new();
    labels.push(
        Label { kind: LabelKind::Func, cont: code.instrs.len(), height: 0, arity: ft.results.len() },
    );
    let f = Frame {
        func: fi,
        pc: 0,
        locals,
        stack: Vec::new(),
        labels,
        arity: ft.results.len(),
    };
    assert(f@ =~= activation(d@, fi as int, args@)->0);
    Some(f)
}

/// The views of a sequence without its last element.
pub proof fn lemma_views_drop_last<T: View>(s: Seq<T>)
    requires
        s.len() > 0,
    ensures
        views(s.drop_last()) == views(s).drop_last(),
        views(s).last() == s.last()@,
{
    assert(views(s.drop_last()) =~= views(s).drop_last());
}

/// The step reached the status `st`, the store `store` and, where the
/// call goes on, the machine `m`.
pub open spec fn reached(st: Status, store: StoreView, m: MachineView, s: Step) -> bool {
    &&& st == s.status
    &&& store =~= s.inst.store
    &&& st is Running ==> m =~= s.mach
}

fn same_types(a: &FuncType, b: &FuncType) -> (r: bool)
    ensures
        r == (a@ == b@),
{
    if a.params.len() != b.params.len() || a.results.len() != b.results.len() {
        return false;
    }
    let mut i: usize = 0;
    while i < a.params.len()
        invariant
            i <= a.params.len(),
            a.params.len() == b.params.len(),
            forall|j: int| 0 <= j < i ==> a.params@[j] == b.params@[j],
        decreases a.params.len() - i,
    {
        if a.params[i] != b.params[i] {
            return false;
        }
        i += 1;
    }
    let mut k: usize = 0;
    while k < a.results.len()
        invariant
            k <= a.results.len(),
            a.results.len() == b.results.len(),
            a.params@ =~= b.params@,
            forall|j: int| 0 <= j < k ==> a.results@[j] == b.results@[j],
        decreases a.results.len() - k,
    {
        if a.results[k] != b.results[k] {
            return false;
        }
        k += 1;
    }
    assert(a.results@ =~= b.results@);
    true
}

/// Calls the function `fi` from the current activation.
#[verifier::rlimit(50)]
pub fn do_invoke(d: &Draft, m: Machine, fi: usize) -> (r: (Machine, Status))
    requires
        m.frame.pc < usize::MAX,
    ensures
        r.1 == invoke(d@, m@, m@.frame, fi as int).1,
        r.1 is Running ==> r.0@ =~= invoke(d@, m@, m@.frame, fi as int).0,
{
    let mut m = m;
    let n: usize = match callee(d, fi) {
        Some((ft, _)) => ft.params.len(),
        None => {
            return (m, Status::Trapped(Trap::InvalidCode));
        },
    };
    let len: usize = m.frame.stack.len();
    if len < n {
        return (m, Status::Trapped(Trap::InvalidCode));
    }
    if m.callers.len() >= CALL_DEPTH - 1 {
        return (m, Status::Trapped(Trap::CallStackExhausted));
    }
    let ghost before = m@;
    let args: Vec<u64> = m.frame.stack.split_off(len - n);
    match activate(d, fi, args) {
        Some(callee) => {
            let Machine { frame, callers } = m;
            let mut frame = frame;
            let mut callers = callers;
            frame.pc = frame.pc + 1;
            proof {
                lemma_views_push(callers@, frame);
            }
            callers.push(frame);
            (Machine { frame: callee, callers }, Status::Running)
        },
        None => (m, Status::Trapped(Trap::InvalidCode)),
    }
}

/// Calls through the table a function that has to be of type `t`.
#[verifier::rlimit(50)]
pub fn do_invoke_indirect(d: &Draft, store: &Store, m: Machine, t: u32) -> (r: (Machine, Status))
    requires
        m.frame.pc < usize::MAX,
    ensures
        r.1 == invoke_indirect(InstanceView { module: d@, store: store@ }, m@, t).1,
        r.1 is Running ==> r.0@ =~= invoke_indirect(
            InstanceView { module: d@, store: store@ },
            m@,
            t,
        ).0,
{
    let mut m = m;
    if m.frame.stack.len() == 0 || t as usize >= d.types.len() {
        return (m, Status::Trapped(Trap::InvalidCode));
    }
    let i: u32 = m.frame.stack[m.frame.stack.len() - 1] as u32;
    if i as usize >= store.table.len() {
        return (m, Status::Trapped(Trap::UndefinedElement));
    }
    match store.table[i as usize] {
        None => (m, Status::Trapped(Trap::NullFunctionReference)),
        Some(fi) => match callee(d, fi as usize) {
            Some((ft, _)) => {
                if !same_types(ft, &d.types[t as usize]) {
                    (m, Status::Trapped(Trap::SignatureMismatch))
                } else {
                    m.frame.stack.pop();
                    do_invoke(d, m, fi as usize)
                }
            },
            None => (m, Status::Trapped(Trap::InvalidCode)),
        },
    }
}

/// Ends the current activation.
#[verifier::rlimit(50)]
pub fn do_finish(m: Machine) -> (r: (Machine, Status))
    ensures
        r.1 == finish(m@).1,
        r.1 is Running ==> r.0@ =~= finish(m@).0,
{
    let Machine { frame, callers } = m;
    let mut frame = frame;
    let mut callers = callers;
    let len: usize = frame.stack.len();
    if len < frame.arity {
        return (Machine { frame, callers }, Status::Trapped(Trap::InvalidCode));
    }
    if callers.len() == 0 {
        let v: Option<u64> = if frame.arity == 0 {
            None
        } else {
            Some(frame.stack[len - 1])
        };
        return (Machine { frame, callers }, Status::Done(v));
    }
    proof {
        lemma_views_drop_last(callers@);
    }
    let mut caller: Frame = callers.pop().unwrap();
    let mut results: Vec<u64> = frame.stack.split_off(len - frame.arity);
    caller.stack.append(&mut results);
    (Machine { frame: caller, callers }, Status::Running)
}

fn outcome_status(out: Outcome) -> (st: Status)
    ensures
        st == match out {
            Outcome::Go => Status::Running,
            Outcome::Stop(t) => Status::Trapped(t),
        },
{
    match out {
        Outcome::Go => Status::Running,
        Outcome::Stop(t) => Status::Trapped(t),
    }
}

fn control_instr(ins: Instr) -> (r: bool)
    ensures
        r == is_control(ins),
{
    match ins {
        Instr::Block(_) | Instr::Loop(_) | Instr::If(_) | Instr::Else | Instr::End | Instr::Br(
            _,
        ) | Instr::BrIf(_) | Instr::BrTable { .. } | Instr::Return => true,
        _ => false,
    }
}

fn stateful_instr(ins: Instr) -> (r: bool)
    ensures
        r == is_stateful(ins),
{
    match ins {
        Instr::GlobalGet(_) | Instr::GlobalSet(_) | Instr::Load { .. } | Instr::Store { .. }
        | Instr::MemorySize | Instr::MemoryGrow => true,
        _ => false,
    }
}

/// Takes one step.
#[verifier::rlimit(50)]
pub fn do_step(d: &Draft, tables: &Vec<Vec<Jump>>, store: &mut Store, m: Machine) -> (r: (
    Machine,
    Status,
))
    requires
        tables_ok(d.codes@, tables@),
    ensures
        reached(
            r.1,
            final(store)@,
            r.0@,
            step(InstanceView { module: d@, store: old(store)@ }, m@),
        ),
{
    let mut m = m;
    if m.frame.labels.len() == 0 {
        return do_finish(m);
    }
    if m.frame.func >= d.codes.len() || m.frame.pc >= d.codes[m.frame.func].instrs.len() {
        return (m, Status::Trapped(Trap::InvalidCode));
    }
    let code: &Code = &d.codes[m.frame.func];
    let ins: Instr = code.instrs[m.frame.pc];
    assert(d@.codes[m.frame.func as int] == code@);
    match ins {
        Instr::Call(fi) => do_invoke(d, m, fi as usize),
        Instr::CallIndirect(t) => do_invoke_indirect(d, store, m, t),
        _ => {
            let out = if control_instr(ins) {
                do_control(code, &tables[m.frame.func], &mut m.frame, ins)
            } else if stateful_instr(ins) {
                do_stateful(store, &mut m.frame, ins)
            } else {
                do_basic(&mut m.frame, ins)
            };
            (m, outcome_status(out))
        },
    }
}

/// Runs the call until it ends or traps, for at most `budget` steps.
pub fn do_run(d: &Draft, tables: &Vec<Vec<Jump>>, store: &mut Store, m: Machine, budget: u64) -> (r:
    (Machine, Status))
    requires
        tables_ok(d.codes@, tables@),
    ensures
        reached(
            r.1,
            final(store)@,
            r.0@,
            run(InstanceView { module: d@, store: old(store)@ }, m@, budget as nat),
        ),
        !(r.1 is Running),
{
    let mut cur = m;
    let mut fuel: u64 = budget;
    let ghost start = run(InstanceView { module: d@, store: old(store)@ }, m@, budget as nat);
    while fuel > 0
        invariant
            tables_ok(d.codes@, tables@),
            start == run(InstanceView { module: d@, store: old(store)@ }, m@, budget as nat),
            start == run(InstanceView { module: d@, store: store@ }, cur@, fuel as nat),
        decreases fuel,
    {
        let (next, st) = do_step(d, tables, store, cur);
        match st {
            Status::Running => {
                cur = next;
                fuel = fuel - 1;
            },
            _ => {
                return (next, st);
            },
        }
    }
    (cur, Status::Trapped(Trap::StepLimit))
}

} // verus!

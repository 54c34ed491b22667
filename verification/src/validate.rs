//! The validator: checks a draft against the validation rules.
use vstd::prelude::*;
use crate::types::{
    ValType, BlockType, FuncType, Limits, GlobalType, ConstExpr, ExternKind, ImportDesc,
    Export, Element, Instr, LocalGroup, Draft, views,
};
use crate::ops::{numeric_signature, memory_access, natural_alignment};
use crate::typing::{
    MAX_PAGES, FrameKind, CtrlFrame, Stacks, Context, Scope, ValidationError, with_imports,
    with_globals, context_of, result_of, pop_any, pop, push, pop_block, push_block, pop_all,
    push_all, mark_unreachable, enter, leave, label_type, group_type, local_type, func_type,
    apply, labels_agree, check_instr, check_from, entry, scope_of, check_codes, limits_ok,
    types_ok, import_ok, imports_ok, functions_ok, const_type, globals_ok, export_ok,
    exports_ok, start_ok, element_ok, elements_ok, data_ok, datas_ok, check_spec, local_count,
};

verus! {

/// The two stacks of the validator.
pub struct Checker {
    pub opds: Vec<Option<ValType>>,
    pub ctrls: Vec<CtrlFrame>,
}

impl View for Checker {
    type V = Stacks;

    open spec fn view(&self) -> Stacks {
        Stacks { opds: self.opds@, ctrls: self.ctrls@ }
    }
}

/// The index spaces of a module, but for its types.
pub struct Spaces {
    pub funcs: Vec<u32>,
    pub tables: Vec<Limits>,
    pub mems: Vec<Limits>,
    pub globals: Vec<GlobalType>,
    pub imported_globals: usize,
}

/// The index spaces as the rules see them, with the types of the module.
pub open spec fn context(types: Seq<FuncType>, sp: &Spaces) -> Context {
    Context {
        types: views(types),
        funcs: sp.funcs@,
        tables: sp.tables@,
        mems: sp.mems@,
        globals: sp.globals@,
        imported_globals: sp.imported_globals as int,
    }
}

/// What a function body is checked against.
pub struct Body<'a> {
    pub types: &'a Vec<FuncType>,
    pub spaces: &'a Spaces,
    pub params: &'a Vec<ValType>,
    pub groups: &'a Vec<LocalGroup>,
    pub result: BlockType,
    pub pool: &'a Vec<u32>,
}

impl<'a> View for Body<'a> {
    type V = Scope;

    open spec fn view(&self) -> Scope {
        Scope {
            module: context(self.types@, self.spaces),
            params: self.params@,
            groups: self.groups@,
            result: self.result,
            pool: self.pool@,
        }
    }
}

/// The checker returned what the rule gives.
pub open spec fn agrees(r: Option<Checker>, sp: Option<Stacks>) -> bool {
    match r {
        Some(st) => sp == Some(st@),
        None => sp is None,
    }
}

fn take_any(st: Checker) -> (r: Option<(Option<ValType>, Checker)>)
    ensures
        match r {
            Some((a, st2)) => pop_any(st@) == Some((a, st2@)),
            None => pop_any(st@) is None,
        },
{
    let mut st = st;
    let n: usize = st.ctrls.len();
    if n == 0 {
        None
    } else if st.opds.len() <= st.ctrls[n - 1].height {
        if st.ctrls[n - 1].unreachable {
            Some((None, st))
        } else {
            None
        }
    } else {
        let a = st.opds.pop().unwrap();
        Some((a, st))
    }
}

fn take(st: Checker, t: ValType) -> (r: Option<Checker>)
    ensures
        agrees(r, pop(st@, t)),
{
    match take_any(st) {
        Some((a, st2)) => {
            let fits = match a {
                None => true,
                Some(u) => u == t,
            };
            if fits {
                Some(st2)
            } else {
                None
            }
        },
        None => None,
    }
}

fn put(st: Checker, t: ValType) -> (r: Checker)
    ensures
        r@ == push(st@, t),
{
    let mut st = st;
    st.opds.push(Some(t));
    st
}

fn take_block(st: Checker, bt: BlockType) -> (r: Option<Checker>)
    ensures
        agrees(r, pop_block(st@, bt)),
{
    match bt {
        BlockType::Empty => Some(st),
        BlockType::Value(t) => take(st, t),
    }
}

fn put_block(st: Checker, bt: BlockType) -> (r: Checker)
    ensures
        r@ == push_block(st@, bt),
{
    match bt {
        BlockType::Empty => st,
        BlockType::Value(t) => put(st, t),
    }
}

fn take_all(st: Checker, ts: &Vec<ValType>) -> (r: Option<Checker>)
    ensures
        agrees(r, pop_all(st@, ts@, ts@.len())),
{
    let ghost start = st@;
    let mut cur = st;
    let mut k: usize = ts.len();
    while k > 0
        invariant
            k <= ts.len(),
            start == st@,
            pop_all(start, ts@, ts@.len()) == pop_all(cur@, ts@, k as nat),
        decreases k,
    {
        match take(cur, ts[k - 1]) {
            Some(st2) => {
                cur = st2;
            },
            None => {
                return None;
            },
        }
        k -= 1;
    }
    Some(cur)
}

fn put_all(st: Checker, ts: &Vec<ValType>) -> (r: Checker)
    ensures
        r@ == push_all(st@, ts@, 0),
{
    let ghost start = st@;
    let mut st = st;
    let mut i: usize = 0;
    while i < ts.len()
        invariant
            i <= ts.len(),
            push_all(start, ts@, 0) == push_all(st@, ts@, i as int),
        decreases ts.len() - i,
    {
        st = put(st, ts[i]);
        i += 1;
    }
    st
}

fn cut(st: Checker) -> (r: Checker)
    ensures
        r@ == mark_unreachable(st@),
{
    let mut st = st;
    let n: usize = st.ctrls.len();
    if n == 0 {
        st
    } else {
        let mut f: CtrlFrame = st.ctrls[n - 1];
        st.opds.truncate(f.height);
        f.unreachable = true;
        st.ctrls.set(n - 1, f);
        st
    }
}

fn open_frame(st: Checker, kind: FrameKind, result: BlockType) -> (r: Checker)
    ensures
        r@ == enter(st@, kind, result),
{
    let mut st = st;
    let height: usize = st.opds.len();
    st.ctrls.push(CtrlFrame { kind, result, height, unreachable: false });
    st
}

fn close_frame(st: Checker) -> (r: Option<(CtrlFrame, Checker)>)
    ensures
        match r {
            Some((f, st2)) => leave(st@) == Some((f, st2@)),
            None => leave(st@) is None,
        },
{
    let n: usize = st.ctrls.len();
    if n == 0 {
        return None;
    }
    let f: CtrlFrame = st.ctrls[n - 1];
    match take_block(st, f.result) {
        Some(st2) => {
            let mut st2 = st2;
            if st2.opds.len() == f.height {
                st2.ctrls.pop();
                Some((f, st2))
            } else {
                None
            }
        },
        None => None,
    }
}

fn label_of(st: &Checker, l: u32) -> (r: Option<BlockType>)
    ensures
        r == label_type(st@, l),
{
    if (l as usize) < st.ctrls.len() {
        let f: CtrlFrame = st.ctrls[st.ctrls.len() - 1 - l as usize];
        match f.kind {
            FrameKind::Loop => Some(BlockType::Empty),
            _ => Some(f.result),
        }
    } else {
        None
    }
}

fn group_type_of(groups: &Vec<LocalGroup>, x: u64) -> (r: Option<ValType>)
    ensures
        r == group_type(groups@, 0, x as int),
{
    let mut rem: u64 = x;
    let mut i: usize = 0;
    while i < groups.len()
        invariant
            i <= groups.len(),
            group_type(groups@, 0, x as int) == group_type(groups@, i as int, rem as int),
        decreases groups.len() - i,
    {
        if rem < groups[i].count as u64 {
            return Some(groups[i].ty);
        }
        rem = rem - groups[i].count as u64;
        i += 1;
    }
    None
}

fn local_type_of(b: &Body, x: u32) -> (r: Option<ValType>)
    ensures
        r == local_type(b@, x),
{
    if (x as usize) < b.params.len() {
        Some(b.params[x as usize])
    } else {
        group_type_of(b.groups, x as u64 - b.params.len() as u64)
    }
}

fn func_type_of<'a>(types: &'a Vec<FuncType>, sp: &Spaces, f: u32) -> (r: Option<&'a FuncType>)
    ensures
        match r {
            Some(ft) => func_type(context(types@, sp), f) == Some(ft@),
            None => func_type(context(types@, sp), f) is None,
        },
{
    if (f as usize) < sp.funcs.len() && (sp.funcs[f as usize] as usize) < types.len() {
        Some(&types[sp.funcs[f as usize] as usize])
    } else {
        None
    }
}

fn apply_type(st: Checker, ft: &FuncType) -> (r: Option<Checker>)
    ensures
        agrees(r, apply(st@, ft@)),
{
    match take_all(st, &ft.params) {
        Some(st2) => Some(put_all(st2, &ft.results)),
        None => None,
    }
}

fn labels_agree_exec(st: &Checker, pool: &Vec<u32>, first: u32, count: u32, bt: BlockType) -> (r:
    bool)
    requires
        first + count < pool.len(),
    ensures
        r == labels_agree(st@, pool@, first as int, count as int, bt),
{
    let mut k: usize = first as usize;
    let end: usize = first as usize + count as usize;
    while k < end
        invariant
            first <= k <= end,
            end == first + count,
            end < pool.len(),
            forall|j: int| first <= j < k ==> label_type(st@, #[trigger] pool@[j]) == Some(bt),
        decreases end - k,
    {
        match label_of(st, pool[k]) {
            Some(t) => {
                if t != bt {
                    assert(label_type(st@, pool@[k as int]) != Some(bt));
                    return false;
                }
            },
            None => {
                assert(label_type(st@, pool@[k as int]) != Some(bt));
                return false;
            },
        }
        k += 1;
    }
    true
}

/// Whether the instruction is one of control: it opens or closes a
/// region, branches or calls.
pub open spec fn alters_flow(ins: Instr) -> bool {
    ins is Unreachable || ins is Nop || ins is Block || ins is Loop || ins is If || ins is Else
        || ins is End || ins is Br || ins is BrIf || ins is BrTable || ins is Return
        || ins is Call || ins is CallIndirect
}

fn alters_flow_exec(ins: Instr) -> (r: bool)
    ensures
        r == alters_flow(ins),
{
    match ins {
        Instr::Unreachable | Instr::Nop | Instr::Block(_) | Instr::Loop(_) | Instr::If(_)
        | Instr::Else | Instr::End | Instr::Br(_) | Instr::BrIf(_) | Instr::BrTable { .. }
        | Instr::Return | Instr::Call(_) | Instr::CallIndirect(_) => true,
        _ => false,
    }
}

fn check_else(b: &Body, st: Checker) -> (r: Option<Checker>)
    ensures
        agrees(r, check_instr(b@, st@, Instr::Else)),
{
    match close_frame(st) {
        Some((f, st2)) => match f.kind {
            FrameKind::If => Some(open_frame(st2, FrameKind::Else, f.result)),
            _ => None,
        },
        None => None,
    }
}

fn check_end(b: &Body, st: Checker) -> (r: Option<Checker>)
    ensures
        agrees(r, check_instr(b@, st@, Instr::End)),
{
    match close_frame(st) {
        Some((f, st2)) => {
            let open_if = match f.kind {
                FrameKind::If => true,
                _ => false,
            };
            let has_value = match f.result {
                BlockType::Value(_) => true,
                BlockType::Empty => false,
            };
            if open_if && has_value {
                None
            } else {
                Some(put_block(st2, f.result))
            }
        },
        None => None,
    }
}

fn check_br(b: &Body, st: Checker, l: u32) -> (r: Option<Checker>)
    ensures
        agrees(r, check_instr(b@, st@, Instr::Br(l))),
{
    match label_of(&st, l) {
        Some(bt) => match take_block(st, bt) {
            Some(st2) => Some(cut(st2)),
            None => None,
        },
        None => None,
    }
}

fn check_br_if(b: &Body, st: Checker, l: u32) -> (r: Option<Checker>)
    ensures
        agrees(r, check_instr(b@, st@, Instr::BrIf(l))),
{
    match take(st, ValType::I32) {
        Some(st1) => match label_of(&st1, l) {
            Some(bt) => match take_block(st1, bt) {
                Some(st2) => Some(put_block(st2, bt)),
                None => None,
            },
            None => None,
        },
        None => None,
    }
}

#[verifier::rlimit(50)]

fn check_br_table(b: &Body, st: Checker, first: u32, count: u32) -> (r: Option<Checker>)
    ensures
        agrees(r, check_instr(b@, st@, Instr::BrTable { first, count })),
{
    match take(st, ValType::I32) {
        Some(st1) => {
            if (first as u64 + count as u64) < b.pool.len() as u64 {
                match label_of(&st1, b.pool[first as usize + count as usize]) {
                    Some(bt) => {
                        if labels_agree_exec(&st1, b.pool, first, count, bt) {
                            match take_block(st1, bt) {
                                Some(st2) => Some(cut(st2)),
                                None => None,
                            }
                        } else {
                            None
                        }
                    },
                    None => None,
                }
            } else {
                None
            }
        },
        None => None,
    }
}

fn check_call(b: &Body, st: Checker, f: u32) -> (r: Option<Checker>)
    ensures
        agrees(r, check_instr(b@, st@, Instr::Call(f))),
{
    match func_type_of(b.types, b.spaces, f) {
        Some(ft) => apply_type(st, ft),
        None => None,
    }
}

fn check_call_indirect(b: &Body, st: Checker, t: u32) -> (r: Option<Checker>)
    ensures
        agrees(r, check_instr(b@, st@, Instr::CallIndirect(t))),
{
    if b.spaces.tables.len() > 0 && (t as usize) < b.types.len() {
        match take(st, ValType::I32) {
            Some(st2) => apply_type(st2, &b.types[t as usize]),
            None => None,
        }
    } else {
        None
    }
}

/// Checks an instruction of control.
#[verifier::rlimit(50)]
fn check_flow(b: &Body, st: Checker, ins: Instr) -> (r: Option<Checker>)
    requires
        alters_flow(ins),
    ensures
        agrees(r, check_instr(b@, st@, ins)),
{
    match ins {
        Instr::Unreachable => Some(cut(st)),
        Instr::Nop => Some(st),
        Instr::Block(bt) => Some(open_frame(st, FrameKind::Block, bt)),
        Instr::Loop(bt) => Some(open_frame(st, FrameKind::Loop, bt)),
        Instr::If(bt) => match take(st, ValType::I32) {
            Some(st2) => Some(open_frame(st2, FrameKind::If, bt)),
            None => None,
        },
        Instr::Else => check_else(b, st),
        Instr::End => check_end(b, st),
        Instr::Br(l) => check_br(b, st, l),
        Instr::BrIf(l) => check_br_if(b, st, l),
        Instr::BrTable { first, count } => check_br_table(b, st, first, count),
        Instr::Return => match take_block(st, b.result) {
            Some(st2) => Some(cut(st2)),
            None => None,
        },
        Instr::Call(f) => check_call(b, st, f),
        Instr::CallIndirect(t) => check_call_indirect(b, st, t),
        _ => None,
    }
}

/// Checks an instruction that works on operands.
#[verifier::rlimit(50)]
fn check_plain(b: &Body, st: Checker, ins: Instr) -> (r: Option<Checker>)
    requires
        !alters_flow(ins),
    ensures
        agrees(r, check_instr(b@, st@, ins)),
{
    match ins {
        Instr::Drop => match take_any(st) {
            Some((_, st2)) => Some(st2),
            None => None,
        },
        Instr::Select => match take(st, ValType::I32) {
            Some(st1) => match take_any(st1) {
                Some((a, st2)) => match take_any(st2) {
                    Some((c, st3)) => {
                        let mut st3 = st3;
                        match (a, c) {
                            (Some(x), Some(y)) => {
                                if x != y {
                                    None
                                } else {
                                    st3.opds.push(a);
                                    Some(st3)
                                }
                            },
                            (Some(_), None) => {
                                st3.opds.push(a);
                                Some(st3)
                            },
                            (None, _) => {
                                st3.opds.push(c);
                                Some(st3)
                            },
                        }
                    },
                    None => None,
                },
                None => None,
            },
            None => None,
        },
        Instr::LocalGet(x) => match local_type_of(b, x) {
            Some(t) => Some(put(st, t)),
            None => None,
        },
        Instr::LocalSet(x) => match local_type_of(b, x) {
            Some(t) => take(st, t),
            None => None,
        },
        Instr::LocalTee(x) => match local_type_of(b, x) {
            Some(t) => match take(st, t) {
                Some(st2) => Some(put(st2, t)),
                None => None,
            },
            None => None,
        },
        Instr::GlobalGet(x) => {
            if (x as usize) < b.spaces.globals.len() {
                Some(put(st, b.spaces.globals[x as usize].ty))
            } else {
                None
            }
        },
        Instr::GlobalSet(x) => {
            if (x as usize) < b.spaces.globals.len() && b.spaces.globals[x as usize].mutable {
                take(st, b.spaces.globals[x as usize].ty)
            } else {
                None
            }
        },
        Instr::Load { op, align, offset } => match memory_access(op) {
            Some(a) => {
                if b.spaces.mems.len() > 0 && align <= natural_alignment(a.width) {
                    match take(st, ValType::I32) {
                        Some(st2) => Some(put(st2, a.ty)),
                        None => None,
                    }
                } else {
                    None
                }
            },
            None => None,
        },
        Instr::Store { op, align, offset } => match memory_access(op) {
            Some(a) => {
                if b.spaces.mems.len() > 0 && align <= natural_alignment(a.width) {
                    match take(st, a.ty) {
                        Some(st2) => take(st2, ValType::I32),
                        None => None,
                    }
                } else {
                    None
                }
            },
            None => None,
        },
        Instr::MemorySize => {
            if b.spaces.mems.len() > 0 {
                Some(put(st, ValType::I32))
            } else {
                None
            }
        },
        Instr::MemoryGrow => {
            if b.spaces.mems.len() > 0 {
                match take(st, ValType::I32) {
                    Some(st2) => Some(put(st2, ValType::I32)),
                    None => None,
                }
            } else {
                None
            }
        },
        Instr::I32Const(_) => Some(put(st, ValType::I32)),
        Instr::I64Const(_) => Some(put(st, ValType::I64)),
        Instr::F32Const(_) => Some(put(st, ValType::F32)),
        Instr::F64Const(_) => Some(put(st, ValType::F64)),
        Instr::Numeric(op) => match numeric_signature(op) {
            Some(s) => match take(st, s.operand) {
                Some(st1) => {
                    if s.binary {
                        match take(st1, s.operand) {
                            Some(st2) => Some(put(st2, s.result)),
                            None => None,
                        }
                    } else {
                        Some(put(st1, s.result))
                    }
                },
                None => None,
            },
            None => None,
        },
        _ => None,
    }
}

/// Checks one instruction.
pub fn check_one(b: &Body, st: Checker, ins: Instr) -> (r: Option<Checker>)
    ensures
        agrees(r, check_instr(b@, st@, ins)),
{
    if alters_flow_exec(ins) {
        check_flow(b, st, ins)
    } else {
        check_plain(b, st, ins)
    }
}

/// Checks a function body; the error is the position of the instruction
/// that is not well typed.
pub fn check_body(b: &Body, instrs: &Vec<Instr>) -> (r: Result<(), usize>)
    ensures
        match r {
            Ok(_) => check_from(b@, entry(b.result), instrs@, 0) is Ok,
            Err(at) => check_from(b@, entry(b.result), instrs@, 0) == Err::<(), int>(at as int),
        },
{
    let mut st = Checker { opds: Vec::new(), ctrls: Vec::new() };
    st.ctrls.push(CtrlFrame { kind: FrameKind::Func, result: b.result, height: 0, unreachable: false });
    assert(st@.ctrls =~= entry(b.result).ctrls);
    let mut i: usize = 0;
    while i < instrs.len()
        invariant
            i <= instrs.len(),
            check_from(b@, entry(b.result), instrs@, 0) == check_from(b@, st@, instrs@, i as int),
        decreases instrs.len() - i,
    {
        if st.ctrls.len() == 0 {
            return Err(i);
        }
        match check_one(b, st, instrs[i]) {
            Some(st2) => {
                st = st2;
            },
            None => {
                return Err(i);
            },
        }
        i += 1;
    }
    if st.ctrls.len() == 0 {
        Ok(())
    } else {
        Err(i)
    }
}

/// The locals of a function are no fewer than those counted so far.
pub proof fn lemma_local_count_grows(groups: Seq<LocalGroup>, i: int, acc: int)
    ensures
        local_count(groups, i, acc) >= acc,
    decreases groups.len() - i,
{
    if 0 <= i < groups.len() {
        lemma_local_count_grows(groups, i + 1, acc + groups[i].count);
    }
}

/// Counts the locals of a function, up to `u32::MAX`.
pub fn count_locals(groups: &Vec<LocalGroup>) -> (r: Option<u64>)
    ensures
        match r {
            Some(n) => n == local_count(groups@, 0, 0) && n <= u32::MAX,
            None => local_count(groups@, 0, 0) > u32::MAX,
        },
{
    let mut total: u64 = 0;
    let mut i: usize = 0;
    while i < groups.len()
        invariant
            i <= groups.len(),
            total <= u32::MAX,
            local_count(groups@, 0, 0) == local_count(groups@, i as int, total as int),
        decreases groups.len() - i,
    {
        total = total + groups[i].count as u64;
        if total > u32::MAX as u64 {
            proof {
                lemma_local_count_grows(groups@, i as int + 1, total as int);
            }
            return None;
        }
        i += 1;
    }
    Some(total)
}

/// Collects the index spaces of a draft.
#[verifier::rlimit(50)]
pub fn spaces_of(d: &Draft) -> (sp: Spaces)
    ensures
        context(d.types@, &sp) == context_of(d@),
{
    let mut sp = Spaces {
        funcs: Vec::new(),
        tables: Vec::new(),
        mems: Vec::new(),
        globals: Vec::new(),
        imported_globals: 0,
    };
    let ghost start = context(d.types@, &sp);
    let mut i: usize = 0;
    while i < d.imports.len()
        invariant
            i <= d.imports.len(),
            sp.imported_globals <= i,
            with_imports(d@.imports, 0, start) == with_imports(
                d@.imports,
                i as int,
                context(d.types@, &sp),
            ),
        decreases d.imports.len() - i,
    {
        match d.imports[i].desc {
            ImportDesc::Func(t) => {
                sp.funcs.push(t);
            },
            ImportDesc::Table(l) => {
                sp.tables.push(l);
            },
            ImportDesc::Memory(l) => {
                sp.mems.push(l);
            },
            ImportDesc::Global(g) => {
                sp.globals.push(g);
                sp.imported_globals = sp.imported_globals + 1;
            },
        }
        i += 1;
    }
    let ghost c = context(d.types@, &sp);
    assert(with_imports(d@.imports, 0, start) == c);
    sp.funcs.extend_from_slice(d.funcs.as_slice());
    sp.tables.extend_from_slice(d.tables.as_slice());
    sp.mems.extend_from_slice(d.mems.as_slice());
    let mut j: usize = 0;
    while j < d.globals.len()
        invariant
            j <= d.globals.len(),
            sp.funcs@ == c.funcs + d.funcs@,
            sp.tables@ == c.tables + d.tables@,
            sp.mems@ == c.mems + d.mems@,
            sp.imported_globals == c.imported_globals,
            with_globals(d@, 0, c.globals) == with_globals(d@, j as int, sp.globals@),
        decreases d.globals.len() - j,
    {
        sp.globals.push(d.globals[j].ty);
        j += 1;
    }
    proof {
        let full = context(d.types@, &sp);
        assert(with_imports(d@.imports, 0, start) == c);
        assert(with_globals(d@, 0, c.globals) == sp.globals@);
        assert(start.funcs =~= Seq::<u32>::empty());
        assert(start.tables =~= Seq::<Limits>::empty());
        assert(start.mems =~= Seq::<Limits>::empty());
        assert(start.globals =~= Seq::<GlobalType>::empty());
        assert(full.funcs =~= c.funcs + d@.funcs);
        assert(full.tables =~= c.tables + d@.tables);
        assert(full.mems =~= c.mems + d@.mems);
    }
    sp
}

fn limits_in_order(l: Limits, bound: u32) -> (r: bool)
    ensures
        r == limits_ok(l, bound as int),
{
    l.min <= bound && match l.max {
        Some(m) => l.min <= m && m <= bound,
        None => true,
    }
}

fn check_types(d: &Draft) -> (r: bool)
    ensures
        r == types_ok(d@),
{
    let mut i: usize = 0;
    while i < d.types.len()
        invariant
            i <= d.types.len(),
            forall|j: int| 0 <= j < i ==> (#[trigger] d@.types[j]).results.len() <= 1,
        decreases d.types.len() - i,
    {
        if d.types[i].results.len() > 1 {
            assert(d@.types[i as int].results.len() > 1);
            return false;
        }
        i += 1;
    }
    true
}

fn check_imports(d: &Draft) -> (r: bool)
    ensures
        r == imports_ok(d@),
{
    let mut i: usize = 0;
    while i < d.imports.len()
        invariant
            i <= d.imports.len(),
            forall|j: int| 0 <= j < i ==> import_ok(d@, #[trigger] d@.imports[j]),
        decreases d.imports.len() - i,
    {
        let ok = match d.imports[i].desc {
            ImportDesc::Func(t) => (t as usize) < d.types.len(),
            ImportDesc::Table(l) => limits_in_order(l, u32::MAX),
            ImportDesc::Memory(l) => limits_in_order(l, MAX_PAGES),
            ImportDesc::Global(_) => true,
        };
        if !ok {
            assert(!import_ok(d@, d@.imports[i as int]));
            return false;
        }
        i += 1;
    }
    true
}

fn check_functions(d: &Draft) -> (r: bool)
    ensures
        r == functions_ok(d@),
{
    let mut i: usize = 0;
    while i < d.funcs.len()
        invariant
            i <= d.funcs.len(),
            forall|j: int| 0 <= j < i ==> #[trigger] d@.funcs[j] < d@.types.len(),
        decreases d.funcs.len() - i,
    {
        if d.funcs[i] as usize >= d.types.len() {
            assert(!(d@.funcs[i as int] < d@.types.len()));
            return false;
        }
        i += 1;
    }
    d.funcs.len() == d.codes.len()
}

fn check_limits(v: &Vec<Limits>, bound: u32) -> (r: bool)
    ensures
        r == (forall|i: int| 0 <= i < v@.len() ==> limits_ok(#[trigger] v@[i], bound as int)),
{
    let mut i: usize = 0;
    while i < v.len()
        invariant
            i <= v.len(),
            forall|j: int| 0 <= j < i ==> limits_ok(#[trigger] v@[j], bound as int),
        decreases v.len() - i,
    {
        if !limits_in_order(v[i], bound) {
            assert(!limits_ok(v@[i as int], bound as int));
            return false;
        }
        i += 1;
    }
    true
}

fn const_type_of(sp: &Spaces, e: ConstExpr) -> (r: Option<ValType>)
    ensures
        forall|types: Seq<FuncType>| r == const_type(context(types, sp), e),
{
    match e {
        ConstExpr::I32(_) => Some(ValType::I32),
        ConstExpr::I64(_) => Some(ValType::I64),
        ConstExpr::F32(_) => Some(ValType::F32),
        ConstExpr::F64(_) => Some(ValType::F64),
        ConstExpr::GlobalGet(x) => {
            if (x as usize) < sp.imported_globals && (x as usize) < sp.globals.len()
                && !sp.globals[x as usize].mutable {
                Some(sp.globals[x as usize].ty)
            } else {
                None
            }
        },
    }
}

fn check_globals(d: &Draft, sp: &Spaces) -> (r: bool)
    ensures
        r == globals_ok(context(d.types@, sp), d@),
{
    let ghost c = context(d.types@, sp);
    let mut i: usize = 0;
    while i < d.globals.len()
        invariant
            i <= d.globals.len(),
            c == context(d.types@, sp),
            forall|j: int|
                0 <= j < i ==> const_type(c, (#[trigger] d@.globals[j]).init) == Some(
                    d@.globals[j].ty.ty,
                ),
        decreases d.globals.len() - i,
    {
        let t = const_type_of(sp, d.globals[i].init);
        let ok = match t {
            Some(u) => u == d.globals[i].ty.ty,
            None => false,
        };
        if !ok {
            assert(const_type(c, d@.globals[i as int].init) != Some(d@.globals[i as int].ty.ty));
            return false;
        }
        i += 1;
    }
    true
}

fn same_bytes(a: &Vec<u8>, b: &Vec<u8>) -> (r: bool)
    ensures
        r == (a@ == b@),
{
    if a.len() != b.len() {
        return false;
    }
    let mut i: usize = 0;
    while i < a.len()
        invariant
            i <= a.len(),
            a.len() == b.len(),
            forall|j: int| 0 <= j < i ==> a@[j] == b@[j],
        decreases a.len() - i,
    {
        if a[i] != b[i] {
            return false;
        }
        i += 1;
    }
    assert(a@ =~= b@);
    true
}

fn export_in_range(sp: &Spaces, e: &Export) -> (r: bool)
    ensures
        forall|types: Seq<FuncType>| r == export_ok(context(types, sp), e@),
{
    match e.kind {
        ExternKind::Func => (e.index as usize) < sp.funcs.len(),
        ExternKind::Table => (e.index as usize) < sp.tables.len(),
        ExternKind::Memory => (e.index as usize) < sp.mems.len(),
        ExternKind::Global => (e.index as usize) < sp.globals.len(),
    }
}

#[verifier::rlimit(50)]

fn check_exports(d: &Draft, sp: &Spaces) -> (r: bool)
    ensures
        r == exports_ok(context(d.types@, sp), d@),
{
    let ghost c = context(d.types@, sp);
    let mut i: usize = 0;
    while i < d.exports.len()
        invariant
            i <= d.exports.len(),
            c == context(d.types@, sp),
            forall|j: int| 0 <= j < i ==> export_ok(c, #[trigger] d@.exports[j]),
            forall|j: int, k: int|
                0 <= j < k < i ==> (#[trigger] d@.exports[j]).name != (
                #[trigger] d@.exports[k]).name,
        decreases d.exports.len() - i,
    {
        if !export_in_range(sp, &d.exports[i]) {
            assert(!export_ok(c, d@.exports[i as int]));
            return false;
        }
        let mut j: usize = 0;
        while j < i
            invariant
                j <= i < d.exports.len(),
                forall|k: int| 0 <= k < j ==> (#[trigger] d@.exports[k]).name != d@.exports[i as int].name,
            decreases i - j,
        {
            if same_bytes(&d.exports[j].name, &d.exports[i].name) {
                assert(d@.exports[j as int].name == d@.exports[i as int].name);
                return false;
            }
            j += 1;
        }
        i += 1;
    }
    true
}

fn check_start(d: &Draft, sp: &Spaces) -> (r: bool)
    ensures
        r == start_ok(context(d.types@, sp), d@),
{
    match d.start {
        Some(f) => match func_type_of(&d.types, sp, f) {
            Some(ft) => ft.params.len() == 0 && ft.results.len() == 0,
            None => false,
        },
        None => true,
    }
}

fn check_element(sp: &Spaces, e: &Element) -> (r: bool)
    ensures
        forall|types: Seq<FuncType>| r == element_ok(context(types, sp), e@),
{
    if (e.table as usize) >= sp.tables.len() {
        return false;
    }
    match const_type_of(sp, e.offset) {
        Some(ValType::I32) => {},
        _ => {
            return false;
        },
    }
    let mut k: usize = 0;
    while k < e.init.len()
        invariant
            k <= e.init.len(),
            forall|j: int| 0 <= j < k ==> #[trigger] e@.init[j] < sp.funcs@.len(),
        decreases e.init.len() - k,
    {
        if e.init[k] as usize >= sp.funcs.len() {
            assert(!(e@.init[k as int] < sp.funcs@.len()));
            return false;
        }
        k += 1;
    }
    true
}

fn check_elements(d: &Draft, sp: &Spaces) -> (r: bool)
    ensures
        r == elements_ok(context(d.types@, sp), d@),
{
    let ghost c = context(d.types@, sp);
    let mut i: usize = 0;
    while i < d.elems.len()
        invariant
            i <= d.elems.len(),
            c == context(d.types@, sp),
            forall|j: int| 0 <= j < i ==> element_ok(c, #[trigger] d@.elems[j]),
        decreases d.elems.len() - i,
    {
        if !check_element(sp, &d.elems[i]) {
            assert(!element_ok(c, d@.elems[i as int]));
            return false;
        }
        i += 1;
    }
    true
}

fn check_datas(d: &Draft, sp: &Spaces) -> (r: bool)
    ensures
        r == datas_ok(context(d.types@, sp), d@),
{
    let ghost c = context(d.types@, sp);
    let mut i: usize = 0;
    while i < d.datas.len()
        invariant
            i <= d.datas.len(),
            c == context(d.types@, sp),
            forall|j: int| 0 <= j < i ==> data_ok(c, #[trigger] d@.datas[j]),
        decreases d.datas.len() - i,
    {
        let in_range = (d.datas[i].memory as usize) < sp.mems.len();
        let ok = in_range && match const_type_of(sp, d.datas[i].offset) {
            Some(ValType::I32) => true,
            _ => false,
        };
        if !ok {
            assert(!data_ok(c, d@.datas[i as int]));
            return false;
        }
        i += 1;
    }
    true
}

fn result_type(ft: &FuncType) -> (r: BlockType)
    ensures
        r == result_of(ft@),
{
    if ft.results.len() == 0 {
        BlockType::Empty
    } else {
        BlockType::Value(ft.results[0])
    }
}

#[verifier::rlimit(50)]

fn check_bodies(d: &Draft, sp: &Spaces) -> (r: Result<(), ValidationError>)
    ensures
        r == check_codes(context(d.types@, sp), d@, 0),
{
    let ghost c = context(d.types@, sp);
    let mut i: usize = 0;
    while i < d.codes.len()
        invariant
            i <= d.codes.len(),
            c == context(d.types@, sp),
            check_codes(c, d@, 0) == check_codes(c, d@, i as int),
        decreases d.codes.len() - i,
    {
        if i >= d.funcs.len() || d.funcs[i] as usize >= d.types.len() {
            return Err(ValidationError::Code { func: i, at: 0 });
        }
        let ft = &d.types[d.funcs[i] as usize];
        let fits = match count_locals(&d.codes[i].locals) {
            Some(n) => ft.params.len() <= u32::MAX as usize && ft.params.len() as u64 + n
                <= u32::MAX as u64,
            None => false,
        };
        if !fits {
            return Err(ValidationError::Code { func: i, at: 0 });
        }
        let b = Body {
            types: &d.types,
            spaces: sp,
            params: &ft.params,
            groups: &d.codes[i].locals,
            result: result_type(ft),
            pool: &d.codes[i].labels,
        };
        assert(b@ == scope_of(c, d@, i as int));
        match check_body(&b, &d.codes[i].instrs) {
            Ok(_) => {},
            Err(at) => {
                return Err(ValidationError::Code { func: i, at });
            },
        }
        i += 1;
    }
    Ok(())
}

/// Checks a draft against the validation rules.
pub fn check(d: &Draft) -> (r: Result<(), ValidationError>)
    ensures
        r == check_spec(d@),
{
    let sp = spaces_of(d);
    if !check_types(d) {
        Err(ValidationError::Type)
    } else if !check_imports(d) {
        Err(ValidationError::Import)
    } else if !check_functions(d) {
        Err(ValidationError::Function)
    } else if !(sp.tables.len() <= 1 && check_limits(&d.tables, u32::MAX)) {
        Err(ValidationError::Table)
    } else if !(sp.mems.len() <= 1 && check_limits(&d.mems, MAX_PAGES)) {
        Err(ValidationError::Memory)
    } else if !check_globals(d, &sp) {
        Err(ValidationError::Global)
    } else if !check_exports(d, &sp) {
        Err(ValidationError::Export)
    } else if !check_start(d, &sp) {
        Err(ValidationError::Start)
    } else if !check_elements(d, &sp) {
        Err(ValidationError::Element)
    } else if !check_datas(d, &sp) {
        Err(ValidationError::Data)
    } else {
        check_bodies(d, &sp)
    }
}

} // verus!

//! Why the interpreter can trust the validator: in a valid module the
//! operand stack and the control frames have, at every instruction that is
//! reached, the shape that validation computed for it.
use vstd::prelude::*;
use crate::instance::{
    accepts_spec, call_spec, call_within, const_bits, execute_spec, initial_globals,
    initial_store, instantiate_spec, place_elements,
};
use crate::laws::lemma_step_evolves;
use crate::numeric::lemma_numeric_is_valid;
use crate::ops::{access_of, numeric_sig};
use crate::semantics::{
    CALL_DEPTH, Flow, FrameView, InstanceView, Label, LabelKind, MachineView, STEP_BUDGET,
    Status, StoreView, activation, advance, arity_of, basic, branch, callee_type, control,
    finish, follow, invoke, is_control, is_stateful, opened, popped, run, scan, stateful, step,
};
use crate::types::{
    BlockType, CodeView, DraftView, FuncTypeView, GlobalType, Instr, LocalGroup, ValType,
};
use crate::typing::{
    Context, CtrlFrame, FrameKind, Scope, Stacks, apply, check_code, check_codes, check_from,
    check_instr, check_spec, context_of, element_ok, elements_ok, enter, entry, func_type,
    functions_ok, group_type, label_type, leave, local_count, local_type, mark_unreachable,
    pop, pop_all, pop_any, pop_block, push, push_all, scope_of, start_ok, types_ok,
    with_globals,
};
use crate::validate::lemma_local_count_grows;
use crate::value::Trap;

verus! {

/// The stacks of the validator before the instruction at `p`, if the
/// instructions before it are well typed.
pub open spec fn state_at(sc: Scope, instrs: Seq<Instr>, p: int) -> Option<Stacks>
    decreases p,
{
    if p <= 0 {
        Some(entry(sc.result))
    } else {
        match state_at(sc, instrs, p - 1) {
            Some(st) => if p - 1 < instrs.len() && st.ctrls.len() > 0 {
                check_instr(sc, st, instrs[p - 1])
            } else {
                None
            },
            None => None,
        }
    }
}

/// The body is well typed.
pub open spec fn valid_body(sc: Scope, instrs: Seq<Instr>) -> bool {
    check_from(sc, entry(sc.result), instrs, 0) is Ok
}

proof fn lemma_states_exist(sc: Scope, instrs: Seq<Instr>, p: int)
    requires
        valid_body(sc, instrs),
        0 <= p <= instrs.len(),
    ensures
        state_at(sc, instrs, p) is Some,
        check_from(sc, state_at(sc, instrs, p)->0, instrs, p) is Ok,
    decreases p,
{
    if p > 0 {
        lemma_states_exist(sc, instrs, p - 1);
    }
}

/// In a well-typed body, validation has a state before every instruction
/// and after the last, with a region open exactly until the end.
pub proof fn lemma_state_at(sc: Scope, instrs: Seq<Instr>, p: int)
    requires
        valid_body(sc, instrs),
        0 <= p <= instrs.len(),
    ensures
        state_at(sc, instrs, p) is Some,
        p < instrs.len() ==> state_at(sc, instrs, p)->0.ctrls.len() > 0 && state_at(
            sc,
            instrs,
            p + 1,
        ) == check_instr(sc, state_at(sc, instrs, p)->0, instrs[p]) && state_at(sc, instrs, p + 1)
            is Some,
        p == instrs.len() ==> state_at(sc, instrs, p)->0.ctrls.len() == 0,
{
    lemma_states_exist(sc, instrs, p);
    if p < instrs.len() {
        lemma_states_exist(sc, instrs, p + 1);
    }
}

/// The operands that a result type stands for.
pub open spec fn width(bt: BlockType) -> int {
    arity_of(bt) as int
}

/// Two frames stand for the same region: a frame is replaced at `else`,
/// and marked when the rest of it cannot be reached.
pub open spec fn same_region(a: CtrlFrame, b: CtrlFrame) -> bool {
    a.height == b.height && a.result == b.result && (a.kind is Loop <==> b.kind is Loop)
}

/// No frame is marked: the state is one that execution can be in.
pub open spec fn reachable(st: Stacks) -> bool {
    forall|i: int| 0 <= i < st.ctrls.len() ==> !(#[trigger] st.ctrls[i]).unreachable
}

/// The heights of the frames do not decrease, and the operands reach the
/// last.
pub open spec fn ordered(st: Stacks) -> bool {
    &&& forall|i: int, j: int|
        0 <= i <= j < st.ctrls.len() ==> (#[trigger] st.ctrls[i]).height <= (
        #[trigger] st.ctrls[j]).height
    &&& st.ctrls.len() > 0 ==> st.ctrls.last().height <= st.opds.len()
}

/// The stacks after the top operand is taken.
pub open spec fn rest(st: Stacks) -> Stacks {
    match pop_any(st) {
        Some((_, s)) => s,
        None => st,
    }
}

proof fn lemma_pop_any(st: Stacks)
    requires
        pop_any(st) is Some,
    ensures
        rest(st).ctrls == st.ctrls,
        st.ctrls.len() > 0,
        !st.ctrls.last().unreachable ==> st.opds.len() > st.ctrls.last().height && rest(st).opds.len() == st.opds.len() - 1,
        st.ctrls.last().unreachable ==> rest(st).opds.len() >= st.opds.len() - 1,
        rest(st).opds.len() <= st.opds.len(),
        st.opds.len() >= st.ctrls.last().height ==> rest(st).opds.len()
            >= st.ctrls.last().height,
{
}

proof fn lemma_pop(st: Stacks, t: ValType)
    requires
        pop(st, t) is Some,
    ensures
        pop(st, t)->0.ctrls == st.ctrls,
        st.ctrls.len() > 0,
        !st.ctrls.last().unreachable ==> st.opds.len() > st.ctrls.last().height && pop(
            st,
            t,
        )->0.opds.len() == st.opds.len() - 1,
        pop(st, t)->0.opds.len() <= st.opds.len(),
        st.opds.len() >= st.ctrls.last().height ==> pop(st, t)->0.opds.len()
            >= st.ctrls.last().height,
{
    lemma_pop_any(st);
}

proof fn lemma_pop_block(st: Stacks, bt: BlockType)
    requires
        pop_block(st, bt) is Some,
        st.ctrls.len() > 0,
        st.ctrls.last().height <= st.opds.len(),
    ensures
        pop_block(st, bt)->0.ctrls == st.ctrls,
        !st.ctrls.last().unreachable ==> st.opds.len() >= st.ctrls.last().height + width(bt)
            && pop_block(st, bt)->0.opds.len() == st.opds.len() - width(bt),
        pop_block(st, bt)->0.opds.len() <= st.opds.len(),
        st.opds.len() >= st.ctrls.last().height ==> pop_block(st, bt)->0.opds.len()
            >= st.ctrls.last().height,
{
    match bt {
        BlockType::Empty => {},
        BlockType::Value(t) => {
            lemma_pop(st, t);
        },
    }
}

proof fn lemma_pop_all(st: Stacks, ts: Seq<ValType>, n: nat)
    requires
        pop_all(st, ts, n) is Some,
        st.ctrls.len() > 0,
        st.ctrls.last().height <= st.opds.len(),
        n <= ts.len(),
    ensures
        pop_all(st, ts, n)->0.ctrls == st.ctrls,
        !st.ctrls.last().unreachable ==> st.opds.len() >= st.ctrls.last().height + n && pop_all(
            st,
            ts,
            n,
        )->0.opds.len() == st.opds.len() - n,
        pop_all(st, ts, n)->0.opds.len() <= st.opds.len(),
        st.opds.len() >= st.ctrls.last().height ==> pop_all(st, ts, n)->0.opds.len()
            >= st.ctrls.last().height,
    decreases n,
{
    if n > 0 {
        lemma_pop(st, ts[n - 1]);
        lemma_pop_all(pop(st, ts[n - 1])->0, ts, (n - 1) as nat);
    }
}

proof fn lemma_push_all(st: Stacks, ts: Seq<ValType>, i: int)
    requires
        0 <= i <= ts.len(),
    ensures
        push_all(st, ts, i).ctrls == st.ctrls,
        push_all(st, ts, i).opds.len() == st.opds.len() + ts.len() - i,
    decreases ts.len() - i,
{
    if i < ts.len() {
        lemma_push_all(push(st, ts[i]), ts, i + 1);
    }
}

proof fn lemma_apply(st: Stacks, ft: FuncTypeView)
    requires
        apply(st, ft) is Some,
        st.ctrls.len() > 0,
        st.ctrls.last().height <= st.opds.len(),
    ensures
        apply(st, ft)->0.ctrls == st.ctrls,
        !st.ctrls.last().unreachable ==> st.opds.len() >= st.ctrls.last().height
            + ft.params.len() && apply(st, ft)->0.opds.len() == st.opds.len() - ft.params.len()
            + ft.results.len(),
        st.opds.len() >= st.ctrls.last().height ==> apply(st, ft)->0.opds.len()
            >= st.ctrls.last().height,
        apply(st, ft)->0.opds.len() <= st.opds.len() + ft.results.len(),
{
    lemma_pop_all(st, ft.params, ft.params.len());
    lemma_push_all(pop_all(st, ft.params, ft.params.len())->0, ft.results, 0);
}

/// No function type of the module has more than one result.
pub open spec fn small(sc: Scope) -> bool {
    forall|t: int| 0 <= t < sc.module.types.len() ==> (#[trigger] sc.module.types[t]).results.len() <= 1
}

/// Whether control never goes on to the next instruction.
pub open spec fn never_falls_through(ins: Instr) -> bool {
    ins is Unreachable || ins is Br || ins is BrTable || ins is Return
}

/// What an instruction that opens a region does to the stacks.
pub open spec fn effect_of_opening(st: Stacks, st2: Stacks, bt: BlockType, lp: bool, cond: bool)
    -> bool {
    let n = st.ctrls.len() as int;
    &&& st2.ctrls.len() == n + 1
    &&& st2.ctrls.subrange(0, n) =~= st.ctrls
    &&& st2.ctrls.last().height == st2.opds.len()
    &&& st2.ctrls.last().result == bt
    &&& !st2.ctrls.last().unreachable
    &&& (st2.ctrls.last().kind is Loop <==> lp)
    &&& st2.opds.len() <= st.opds.len()
    &&& !st.ctrls.last().unreachable ==> st2.opds.len() == st.opds.len() - (if cond {
        1int
    } else {
        0int
    })
}

/// What a well-typed instruction does to the control frames.
pub open spec fn effect(st: Stacks, ins: Instr, st2: Stacks) -> bool {
    let n = st.ctrls.len() as int;
    let top = st.ctrls.last();
    match ins {
        Instr::Block(bt) => effect_of_opening(st, st2, bt, false, false),
        Instr::Loop(bt) => effect_of_opening(st, st2, bt, true, false),
        Instr::If(bt) => effect_of_opening(st, st2, bt, false, true),
        Instr::End => st2.ctrls =~= st.ctrls.drop_last() && st2.opds.len() == top.height + width(
            top.result,
        ) && !(top.kind is If && top.result is Value),
        Instr::Else => {
            &&& st2.ctrls.len() == n
            &&& st2.ctrls.drop_last() =~= st.ctrls.drop_last()
            &&& same_region(st2.ctrls.last(), top)
            &&& !st2.ctrls.last().unreachable
            &&& top.kind is If
            &&& st2.ctrls.last().kind is Else
            &&& st2.opds.len() == top.height
        },
        _ => {
            &&& st2.ctrls.len() == n
            &&& st2.ctrls.drop_last() =~= st.ctrls.drop_last()
            &&& same_region(st2.ctrls.last(), top)
            &&& st2.ctrls.last().kind == top.kind
            &&& (st2.ctrls.last().unreachable ==> top.unreachable || never_falls_through(ins))
        },
    }
}

proof fn lemma_mark(st: Stacks)
    requires
        st.ctrls.len() > 0,
        ordered(st),
    ensures
        ordered(mark_unreachable(st)),
        mark_unreachable(st).ctrls.len() == st.ctrls.len(),
        mark_unreachable(st).ctrls.drop_last() =~= st.ctrls.drop_last(),
        same_region(mark_unreachable(st).ctrls.last(), st.ctrls.last()),
        mark_unreachable(st).ctrls.last().kind == st.ctrls.last().kind,
{
}

proof fn lemma_enter(st: Stacks, kind: FrameKind, result: BlockType)
    requires
        ordered(st),
        st.opds.len() <= usize::MAX,
    ensures
        ordered(enter(st, kind, result)),
        enter(st, kind, result).opds == st.opds,
        enter(st, kind, result).ctrls == st.ctrls.push(enter(st, kind, result).ctrls.last()),
        enter(st, kind, result).ctrls.last() == (CtrlFrame {
            kind,
            result,
            height: st.opds.len() as usize,
            unreachable: false,
        }),
{
    let st2 = enter(st, kind, result);
    let n = st.ctrls.len() as int;
    assert forall|i: int, j: int| 0 <= i <= j < st2.ctrls.len() implies (
    #[trigger] st2.ctrls[i]).height <= (#[trigger] st2.ctrls[j]).height by {
        if j == n && i < n {
            assert(st.ctrls[i].height <= st.ctrls[n - 1].height);
        }
    }
}

proof fn lemma_leave(st: Stacks)
    requires
        ordered(st),
        leave(st) is Some,
    ensures
        st.ctrls.len() > 0,
        leave(st) == Some((st.ctrls.last(), after_leave(st))),
        ordered(after_leave(st)),
        after_leave(st).ctrls =~= st.ctrls.drop_last(),
        after_leave(st).opds.len() == st.ctrls.last().height,
        after_leave(st).opds.len() <= usize::MAX,
        !st.ctrls.last().unreachable ==> st.opds.len() == st.ctrls.last().height + width(
            st.ctrls.last().result,
        ),
{
    lemma_pop_block(st, st.ctrls.last().result);
    let n = st.ctrls.len() as int;
    if n >= 2 {
        assert(st.ctrls[n - 2].height <= st.ctrls[n - 1].height);
    }
}

/// The stacks after the current frame is closed.
pub open spec fn after_leave(st: Stacks) -> Stacks {
    match leave(st) {
        Some((_, s)) => s,
        None => st,
    }
}

#[verifier::rlimit(50)]

proof fn lemma_effect_control(sc: Scope, st: Stacks, ins: Instr)
    requires
        st.ctrls.len() > 0,
        ordered(st),
        small(sc),
        st.opds.len() <= usize::MAX,
        check_instr(sc, st, ins) is Some,
        ins is Block || ins is Loop || ins is If || ins is Else || ins is End,
    ensures
        effect(st, ins, check_instr(sc, st, ins)->0),
        ordered(check_instr(sc, st, ins)->0),
        check_instr(sc, st, ins)->0.opds.len() <= st.opds.len() + 1,
{
    let st2 = check_instr(sc, st, ins)->0;
    let i32t = ValType::I32;
    match ins {
        Instr::Block(bt) => {
            lemma_enter(st, FrameKind::Block, bt);
        },
        Instr::Loop(bt) => {
            lemma_enter(st, FrameKind::Loop, bt);
        },
        Instr::If(bt) => {
            lemma_pop(st, i32t);
            lemma_enter(pop(st, i32t)->0, FrameKind::If, bt);
        },
        Instr::Else => {
            lemma_leave(st);
            lemma_enter(after_leave(st), FrameKind::Else, st.ctrls.last().result);
            assert(st2.ctrls.drop_last() =~= st.ctrls.drop_last());
        },
        Instr::End => {
            lemma_leave(st);
        },
        _ => {},
    }
}

#[verifier::rlimit(50)]

proof fn lemma_effect_branch(sc: Scope, st: Stacks, ins: Instr)
    requires
        st.ctrls.len() > 0,
        ordered(st),
        small(sc),
        st.opds.len() <= usize::MAX,
        check_instr(sc, st, ins) is Some,
        ins is Unreachable || ins is Br || ins is BrIf || ins is BrTable || ins is Return,
    ensures
        effect(st, ins, check_instr(sc, st, ins)->0),
        ordered(check_instr(sc, st, ins)->0),
        check_instr(sc, st, ins)->0.opds.len() <= st.opds.len() + 1,
{
    match ins {
        Instr::Unreachable => {
            lemma_mark(st);
        },
        Instr::Br(l) => {
            let bt = label_type(st, l)->0;
            lemma_pop_block(st, bt);
            lemma_mark(pop_block(st, bt)->0);
        },
        Instr::BrIf(l) => {
            lemma_pop(st, ValType::I32);
            let st1 = pop(st, ValType::I32)->0;
            let bt = label_type(st1, l)->0;
            lemma_pop_block(st1, bt);
        },
        Instr::BrTable { first, count } => {
            lemma_pop(st, ValType::I32);
            let st1 = pop(st, ValType::I32)->0;
            let bt = label_type(st1, sc.pool[first + count])->0;
            lemma_pop_block(st1, bt);
            lemma_mark(pop_block(st1, bt)->0);
        },
        Instr::Return => {
            lemma_pop_block(st, sc.result);
            lemma_mark(pop_block(st, sc.result)->0);
        },
        _ => {},
    }
}

proof fn lemma_effect_call(sc: Scope, st: Stacks, ins: Instr)
    requires
        st.ctrls.len() > 0,
        ordered(st),
        small(sc),
        st.opds.len() <= usize::MAX,
        check_instr(sc, st, ins) is Some,
        ins is Call || ins is CallIndirect,
    ensures
        effect(st, ins, check_instr(sc, st, ins)->0),
        ordered(check_instr(sc, st, ins)->0),
        check_instr(sc, st, ins)->0.opds.len() <= st.opds.len() + 1,
{
    match ins {
        Instr::Call(f) => {
            lemma_apply(st, func_type(sc.module, f)->0);
        },
        Instr::CallIndirect(t) => {
            lemma_pop(st, ValType::I32);
            lemma_apply(pop(st, ValType::I32)->0, sc.module.types[t as int]);
        },
        _ => {},
    }
}

#[verifier::rlimit(50)]

proof fn lemma_effect_plain(sc: Scope, st: Stacks, ins: Instr)
    requires
        st.ctrls.len() > 0,
        ordered(st),
        small(sc),
        st.opds.len() <= usize::MAX,
        check_instr(sc, st, ins) is Some,
        !(ins is Block || ins is Loop || ins is If || ins is Else || ins is End),
        !(ins is Unreachable || ins is Br || ins is BrIf || ins is BrTable || ins is Return),
        !(ins is Call || ins is CallIndirect),
    ensures
        effect(st, ins, check_instr(sc, st, ins)->0),
        ordered(check_instr(sc, st, ins)->0),
        check_instr(sc, st, ins)->0.opds.len() <= st.opds.len() + 1,
{
    let i32t = ValType::I32;
    match ins {
        Instr::Drop => {
            lemma_pop_any(st);
        },
        Instr::Select => {
            lemma_pop(st, i32t);
            let st1 = pop(st, i32t)->0;
            lemma_pop_any(st1);
            lemma_pop_any(rest(st1));
        },
        Instr::LocalSet(x) => {
            lemma_pop(st, local_type(sc, x)->0);
        },
        Instr::LocalTee(x) => {
            lemma_pop(st, local_type(sc, x)->0);
        },
        Instr::GlobalSet(x) => {
            lemma_pop(st, sc.module.globals[x as int].ty);
        },
        Instr::Load { op, align, offset } => {
            lemma_pop(st, i32t);
        },
        Instr::Store { op, align, offset } => {
            let a = access_of(op)->0;
            lemma_pop(st, a.ty);
            lemma_pop(pop(st, a.ty)->0, i32t);
        },
        Instr::MemoryGrow => {
            lemma_pop(st, i32t);
        },
        Instr::Numeric(op) => {
            let s = numeric_sig(op)->0;
            lemma_pop(st, s.operand);
            if s.binary {
                lemma_pop(pop(st, s.operand)->0, s.operand);
            }
        },
        _ => {},
    }
}

/// A well-typed instruction changes the control frames as `effect` says,
/// and keeps the heights in order.
pub proof fn lemma_effect(sc: Scope, st: Stacks, ins: Instr)
    requires
        st.ctrls.len() > 0,
        ordered(st),
        small(sc),
        st.opds.len() <= usize::MAX,
        check_instr(sc, st, ins) is Some,
    ensures
        effect(st, ins, check_instr(sc, st, ins)->0),
        ordered(check_instr(sc, st, ins)->0),
        check_instr(sc, st, ins)->0.opds.len() <= st.opds.len() + 1,
{
    if ins is Block || ins is Loop || ins is If || ins is Else || ins is End {
        lemma_effect_control(sc, st, ins);
    } else if ins is Unreachable || ins is Br || ins is BrIf || ins is BrTable || ins is Return {
        lemma_effect_branch(sc, st, ins);
    } else if ins is Call || ins is CallIndirect {
        lemma_effect_call(sc, st, ins);
    } else {
        lemma_effect_plain(sc, st, ins);
    }
}

/// In a well-typed body the heights are in order before every instruction.
pub proof fn lemma_ordered(sc: Scope, instrs: Seq<Instr>, p: int)
    requires
        valid_body(sc, instrs),
        small(sc),
        instrs.len() <= usize::MAX,
        0 <= p <= instrs.len(),
    ensures
        state_at(sc, instrs, p) is Some,
        ordered(state_at(sc, instrs, p)->0),
        state_at(sc, instrs, p)->0.opds.len() <= p,
    decreases p,
{
    lemma_state_at(sc, instrs, p);
    if p > 0 {
        lemma_ordered(sc, instrs, p - 1);
        lemma_state_at(sc, instrs, p - 1);
        lemma_effect(sc, state_at(sc, instrs, p - 1)->0, instrs[p - 1]);
    }
}

/// The validator is inside a region that was opened above the frames
/// `base` at operand height `h` with result `bt`, with `k` more regions
/// opened in it.
pub open spec fn inside(st: Stacks, base: Seq<CtrlFrame>, k: nat, h: usize, bt: BlockType) -> bool {
    &&& st.ctrls.len() == base.len() + 1 + k
    &&& st.ctrls.subrange(0, base.len() as int) =~= base
    &&& st.ctrls[base.len() as int].height == h
    &&& st.ctrls[base.len() as int].result == bt
    &&& !(st.ctrls[base.len() as int].kind is Loop)
}

/// The instruction at `e` closes that region, or is its `else`: what the
/// validator has after it.
pub open spec fn closes(
    sc: Scope,
    instrs: Seq<Instr>,
    e: int,
    or_else: bool,
    base: Seq<CtrlFrame>,
    h: usize,
    bt: BlockType,
) -> bool {
    let w = state_at(sc, instrs, e + 1)->0;
    if instrs[e] is End {
        w.ctrls =~= base && w.opds.len() == h + width(bt) && (or_else ==> bt is Empty)
    } else {
        &&& or_else
        &&& instrs[e] is Else
        &&& inside(w, base, 0, h, bt)
        &&& !w.ctrls.last().unreachable
        &&& w.opds.len() == h
    }
}

/// The scan for the end of a region finds the instruction at which the
/// validator closes that region.
#[verifier::rlimit(50)]
pub proof fn lemma_scan(
    sc: Scope,
    instrs: Seq<Instr>,
    q: int,
    k: nat,
    or_else: bool,
    base: Seq<CtrlFrame>,
    h: usize,
    bt: BlockType,
)
    requires
        valid_body(sc, instrs),
        small(sc),
        instrs.len() <= usize::MAX,
        0 <= q <= instrs.len(),
        inside(state_at(sc, instrs, q)->0, base, k, h, bt),
        or_else ==> state_at(sc, instrs, q)->0.ctrls[base.len() as int].kind is If,
    ensures
        scan(instrs, q, k, or_else) is Some,
        q <= scan(instrs, q, k, or_else)->0 < instrs.len(),
        closes(sc, instrs, scan(instrs, q, k, or_else)->0, or_else, base, h, bt),
    decreases instrs.len() - q,
{
    lemma_state_at(sc, instrs, q);
    lemma_ordered(sc, instrs, q);
    let st = state_at(sc, instrs, q)->0;
    let n = base.len() as int;
    if q < instrs.len() {
        let ins = instrs[q];
        let st2 = state_at(sc, instrs, q + 1)->0;
        lemma_effect(sc, st, ins);
        assert(effect(st, ins, st2));
        match ins {
            Instr::End => {
                if k == 0 {
                    assert(st2.ctrls =~= base);
                } else {
                    assert(st2.ctrls.subrange(0, n) =~= base);
                    assert(st2.ctrls[n] == st.ctrls[n]) by {
                        assert(st2.ctrls[n] == st.ctrls.drop_last()[n]);
                    }
                    lemma_scan(sc, instrs, q + 1, (k - 1) as nat, or_else, base, h, bt);
                }
            },
            Instr::Else => {
                assert(st2.ctrls.subrange(0, n) =~= base) by {
                    assert(st2.ctrls.drop_last() =~= st.ctrls.drop_last());
                    assert forall|i: int| 0 <= i < n implies st2.ctrls[i] == base[i] by {
                        assert(st2.ctrls.drop_last()[i] == st.ctrls.drop_last()[i]);
                        assert(st.ctrls.subrange(0, n)[i] == base[i]);
                    }
                }
                assert(st2.ctrls[n].height == h && st2.ctrls[n].result == bt && !(st2.ctrls[n].kind
                    is Loop) && (k > 0 ==> st2.ctrls[n] == st.ctrls[n])) by {
                    if k > 0 {
                        assert(st2.ctrls.drop_last()[n] == st.ctrls.drop_last()[n]);
                    }
                }
                if k == 0 && or_else {
                } else {
                    lemma_scan(sc, instrs, q + 1, k, or_else, base, h, bt);
                }
            },
            Instr::Block(_) | Instr::Loop(_) | Instr::If(_) => {
                let m = st.ctrls.len() as int;
                assert(st2.ctrls.subrange(0, n) =~= base) by {
                    assert forall|i: int| 0 <= i < n implies st2.ctrls[i] == base[i] by {
                        assert(st2.ctrls.subrange(0, m)[i] == st.ctrls[i]);
                        assert(st.ctrls.subrange(0, n)[i] == base[i]);
                    }
                }
                assert(st2.ctrls[n] == st.ctrls[n]) by {
                    assert(st2.ctrls.subrange(0, m)[n] == st.ctrls[n]);
                }
                lemma_scan(sc, instrs, q + 1, k + 1, or_else, base, h, bt);
            },
            _ => {
                assert(st2.ctrls.subrange(0, n) =~= base) by {
                    assert forall|i: int| 0 <= i < n implies st2.ctrls[i] == base[i] by {
                        assert(st2.ctrls.drop_last()[i] == st.ctrls.drop_last()[i]);
                        assert(st.ctrls.subrange(0, n)[i] == base[i]);
                    }
                }
                assert(st2.ctrls[n].height == h && st2.ctrls[n].result == bt && !(st2.ctrls[n].kind
                    is Loop) && (st2.ctrls[n].kind is If <==> st.ctrls[n].kind is If)) by {
                    if k > 0 {
                        assert(st2.ctrls.drop_last()[n] == st.ctrls.drop_last()[n]);
                    }
                }
                lemma_scan(sc, instrs, q + 1, k, or_else, base, h, bt);
            },
        }
    }
}

/// The number of operands that an instruction without effect on control
/// takes from the stack, and the number it puts there.
pub open spec fn takes(ins: Instr) -> int {
    match ins {
        Instr::Drop | Instr::LocalSet(_) | Instr::LocalTee(_) | Instr::GlobalSet(_) | Instr::Load {
            ..
        } | Instr::MemoryGrow => 1,
        Instr::Select => 3,
        Instr::Store { .. } => 2,
        Instr::Numeric(op) => if numeric_sig(op) is Some && numeric_sig(
            op,
        )->0.binary {
            2
        } else {
            1
        },
        _ => 0,
    }
}

/// The number of operands that a plain instruction puts on the stack.
pub open spec fn gives(ins: Instr) -> int {
    match ins {
        Instr::Nop | Instr::Drop | Instr::LocalSet(_) | Instr::GlobalSet(_) | Instr::Store { .. } => 0,
        _ => 1,
    }
}

/// Whether the instruction works on operands only.
pub open spec fn plain(ins: Instr) -> bool {
    !(ins is Block || ins is Loop || ins is If || ins is Else || ins is End) && !(ins
        is Unreachable || ins is Br || ins is BrIf || ins is BrTable || ins is Return) && !(ins
        is Call || ins is CallIndirect)
}

/// The local `x` exists if it has a type.
pub proof fn lemma_group_type(groups: Seq<LocalGroup>, i: int, x: int, acc: int)
    requires
        group_type(groups, i, x) is Some,
    ensures
        acc + x < local_count(groups, i, acc),
    decreases groups.len() - i,
{
    if 0 <= i < groups.len() && x >= 0 {
        if x < groups[i].count {
            lemma_local_count_grows(groups, i + 1, acc + groups[i].count);
        } else {
            lemma_group_type(groups, i + 1, x - groups[i].count, acc + groups[i].count);
        }
    }
}

/// In a state that execution can be in, a well-typed plain instruction
/// finds its operands above the height of the current frame, leaves the
/// control frames alone, and names only what exists.
#[verifier::rlimit(50)]
pub proof fn lemma_plain(sc: Scope, st: Stacks, ins: Instr)
    requires
        st.ctrls.len() > 0,
        ordered(st),
        reachable(st),
        plain(ins),
        check_instr(sc, st, ins) is Some,
    ensures
        st.opds.len() >= st.ctrls.last().height + takes(ins),
        check_instr(sc, st, ins)->0.opds.len() == st.opds.len() - takes(ins) + gives(ins),
        check_instr(sc, st, ins)->0.ctrls == st.ctrls,
        ins matches Instr::LocalGet(x) ==> x < sc.params.len() + local_count(
            sc.groups,
            0,
            0,
        ),
        ins matches Instr::LocalSet(x) ==> x < sc.params.len() + local_count(
            sc.groups,
            0,
            0,
        ),
        ins matches Instr::LocalTee(x) ==> x < sc.params.len() + local_count(
            sc.groups,
            0,
            0,
        ),
        ins matches Instr::GlobalGet(x) ==> x < sc.module.globals.len(),
        ins matches Instr::GlobalSet(x) ==> x < sc.module.globals.len(),
        ins matches Instr::Numeric(op) ==> numeric_sig(op) is Some,
        ins matches Instr::Load { op, .. } ==> access_of(op) is Some,
        ins matches Instr::Store { op, .. } ==> access_of(op) is Some,
{
    let i32t = ValType::I32;
    assert(!st.ctrls.last().unreachable);
    lemma_local_count_grows(sc.groups, 0, 0);
    match ins {
        Instr::Drop => {
            lemma_pop_any(st);
        },
        Instr::Select => {
            lemma_pop(st, i32t);
            let st1 = pop(st, i32t)->0;
            lemma_pop_any(st1);
            lemma_pop_any(rest(st1));
        },
        Instr::LocalGet(x) => {
            if x >= sc.params.len() {
                lemma_group_type(sc.groups, 0, x - sc.params.len(), 0);
            }
        },
        Instr::LocalSet(x) => {
            lemma_pop(st, local_type(sc, x)->0);
            if x >= sc.params.len() {
                lemma_group_type(sc.groups, 0, x - sc.params.len(), 0);
            }
        },
        Instr::LocalTee(x) => {
            lemma_pop(st, local_type(sc, x)->0);
            if x >= sc.params.len() {
                lemma_group_type(sc.groups, 0, x - sc.params.len(), 0);
            }
        },
        Instr::GlobalSet(x) => {
            lemma_pop(st, sc.module.globals[x as int].ty);
        },
        Instr::Load { op, align, offset } => {
            lemma_pop(st, i32t);
        },
        Instr::Store { op, align, offset } => {
            let a = access_of(op)->0;
            lemma_pop(st, a.ty);
            lemma_pop(pop(st, a.ty)->0, i32t);
        },
        Instr::MemoryGrow => {
            lemma_pop(st, i32t);
        },
        Instr::Numeric(op) => {
            let s = numeric_sig(op)->0;
            lemma_pop(st, s.operand);
            if s.binary {
                lemma_pop(pop(st, s.operand)->0, s.operand);
            }
        },
        _ => {},
    }
}

/// The label at index `i` of an activation stands for the control frame
/// at index `i` of the validator: the same height, the values that a
/// branch carries, and a continuation at which the validator has the
/// frames below it (and the frame itself, for a loop) and the operands
/// that the branch leaves.
pub open spec fn label_ok(
    sc: Scope,
    instrs: Seq<Instr>,
    ctrls: Seq<CtrlFrame>,
    i: int,
    l: Label,
) -> bool {
    let c = ctrls[i];
    &&& l.height == c.height
    &&& (l.kind is Loop <==> c.kind is Loop)
    &&& (i == 0 <==> l.kind is Func)
    &&& 0 <= l.cont <= instrs.len()
    &&& if l.kind is Loop {
        &&& l.arity == 0
        &&& state_at(sc, instrs, l.cont as int) is Some
        &&& state_at(sc, instrs, l.cont as int)->0.ctrls =~= ctrls.subrange(0, i + 1)
        &&& state_at(sc, instrs, l.cont as int)->0.opds.len() == c.height
    } else if i == 0 {
        &&& l.arity == width(c.result)
        &&& l.cont == instrs.len()
        &&& l.height == 0
    } else {
        &&& l.arity == width(c.result)
        &&& state_at(sc, instrs, l.cont as int) is Some
        &&& state_at(sc, instrs, l.cont as int)->0.ctrls =~= ctrls.subrange(0, i)
        &&& state_at(sc, instrs, l.cont as int)->0.opds.len() == c.height + width(c.result)
    }
}

/// The activation has the shape of the validator's state `vs`, but for
/// `pending` operands that are still to come.
pub open spec fn matches_state(
    sc: Scope,
    instrs: Seq<Instr>,
    vs: Stacks,
    f: FrameView,
    pending: int,
) -> bool {
    &&& reachable(vs)
    &&& vs.opds.len() == f.stack.len() + pending
    &&& vs.ctrls.len() == f.labels.len()
    &&& vs.ctrls.len() > 0
    &&& vs.ctrls.last().height <= f.stack.len()
    &&& f.labels[0].arity == f.arity
    &&& forall|i: int|
        0 <= i < f.labels.len() ==> label_ok(sc, instrs, vs.ctrls, i, #[trigger] f.labels[i])
}

/// A label that is right for a stack of control frames is right for any
/// stack that agrees with it up to the label's frame.
pub proof fn lemma_label_prefix(
    sc: Scope,
    instrs: Seq<Instr>,
    a: Seq<CtrlFrame>,
    b: Seq<CtrlFrame>,
    i: int,
    l: Label,
)
    requires
        0 <= i < a.len(),
        i < b.len(),
        a.subrange(0, i + 1) =~= b.subrange(0, i + 1),
        label_ok(sc, instrs, a, i, l),
    ensures
        label_ok(sc, instrs, b, i, l),
{
    assert(a[i] == a.subrange(0, i + 1)[i]);
    assert(b[i] == b.subrange(0, i + 1)[i]);
    assert(a.subrange(0, i) =~= a.subrange(0, i + 1).subrange(0, i));
    assert(b.subrange(0, i) =~= b.subrange(0, i + 1).subrange(0, i));
}

/// The labels of an activation stay right when the validator's frames
/// change only above the first `n`.
pub proof fn lemma_labels_prefix(
    sc: Scope,
    instrs: Seq<Instr>,
    a: Seq<CtrlFrame>,
    b: Seq<CtrlFrame>,
    labels: Seq<Label>,
    n: int,
)
    requires
        0 <= n <= a.len(),
        n <= b.len(),
        n <= labels.len(),
        a.subrange(0, n) =~= b.subrange(0, n),
        forall|i: int| 0 <= i < n ==> label_ok(sc, instrs, a, i, #[trigger] labels[i]),
    ensures
        forall|i: int| 0 <= i < n ==> label_ok(sc, instrs, b, i, #[trigger] labels[i]),
{
    assert forall|i: int| 0 <= i < n implies label_ok(sc, instrs, b, i, #[trigger] labels[i]) by {
        assert(a.subrange(0, i + 1) =~= a.subrange(0, n).subrange(0, i + 1));
        assert(b.subrange(0, i + 1) =~= b.subrange(0, n).subrange(0, i + 1));
        lemma_label_prefix(sc, instrs, a, b, i, labels[i]);
    }
}

/// What is known of a body: it is well typed, under function types with
/// at most one result, and short enough to be held.
pub open spec fn setting(sc: Scope, instrs: Seq<Instr>) -> bool {
    valid_body(sc, instrs) && small(sc) && instrs.len() <= usize::MAX
}

/// The activation is about to execute an instruction in the shape that
/// validation computed for it.
pub open spec fn at_state(sc: Scope, instrs: Seq<Instr>, f: FrameView, pending: int) -> bool {
    &&& 0 <= f.pc < instrs.len()
    &&& state_at(sc, instrs, f.pc) is Some
    &&& matches_state(sc, instrs, state_at(sc, instrs, f.pc)->0, f, pending)
}

/// The activation can go on: it is in the shape that validation computed,
/// or it has ended with its results on the stack.
pub open spec fn goes_on(sc: Scope, instrs: Seq<Instr>, f: FrameView, pending: int) -> bool {
    if f.labels.len() == 0 {
        pending == 0 && f.stack.len() >= f.arity && f.arity >= 0
    } else {
        at_state(sc, instrs, f, pending)
    }
}

/// An instruction kept the function, the number of locals and the number
/// of results of the activation.
pub open spec fn same_function(f: FrameView, g: FrameView) -> bool {
    g.func == f.func && g.locals.len() == f.locals.len() && g.arity == f.arity
}

/// What an instruction did is what validation allows: the activation can
/// go on, or the trap is one of execution.
pub open spec fn flow_ok(sc: Scope, instrs: Seq<Instr>, f: FrameView, flow: Flow) -> bool {
    match flow {
        Flow::Go(g) => goes_on(sc, instrs, g, 0) && same_function(f, g),
        Flow::Stop(t) => t != Trap::InvalidCode,
    }
}

/// After a plain instruction the activation is in the state of the next.
proof fn lemma_next(sc: Scope, instrs: Seq<Instr>, f: FrameView, g: FrameView, pending: int)
    requires
        setting(sc, instrs),
        at_state(sc, instrs, f, 0),
        plain(instrs[f.pc]),
        g.pc == f.pc + 1,
        g.labels == f.labels,
        g.arity == f.arity,
        g.stack.len() + pending == f.stack.len() - takes(instrs[f.pc]) + gives(instrs[f.pc]),
        0 <= pending <= gives(instrs[f.pc]),
    ensures
        at_state(sc, instrs, g, pending),
{
    let vs = state_at(sc, instrs, f.pc)->0;
    lemma_state_at(sc, instrs, f.pc);
    lemma_ordered(sc, instrs, f.pc);
    lemma_plain(sc, vs, instrs[f.pc]);
    lemma_state_at(sc, instrs, f.pc + 1);
    let vs2 = state_at(sc, instrs, f.pc + 1)->0;
    assert(vs2.ctrls == vs.ctrls);
    assert forall|i: int| 0 <= i < g.labels.len() implies label_ok(
        sc,
        instrs,
        vs2.ctrls,
        i,
        #[trigger] g.labels[i],
    ) by {
        assert(label_ok(sc, instrs, vs.ctrls, i, f.labels[i]));
    }
}

/// A plain instruction that touches only operands and locals does what
/// validation allows.
pub proof fn lemma_basic(sc: Scope, instrs: Seq<Instr>, f: FrameView)
    requires
        setting(sc, instrs),
        at_state(sc, instrs, f, 0),
        plain(instrs[f.pc]),
        !is_stateful(instrs[f.pc]),
        f.locals.len() == sc.params.len() + local_count(sc.groups, 0, 0),
    ensures
        flow_ok(sc, instrs, f, basic(f, instrs[f.pc])),
{
    let ins = instrs[f.pc];
    let vs = state_at(sc, instrs, f.pc)->0;
    lemma_state_at(sc, instrs, f.pc);
    lemma_ordered(sc, instrs, f.pc);
    lemma_plain(sc, vs, ins);
    let flow = basic(f, ins);
    match flow {
        Flow::Go(g) => {
            lemma_next(sc, instrs, f, g, 0);
        },
        Flow::Stop(t) => {
            if ins is Numeric {
                lemma_numeric_is_valid(ins->Numeric_0);
            }
        },
    }
}

/// A plain instruction that reads or changes the store does what
/// validation allows.
pub proof fn lemma_stateful(sc: Scope, instrs: Seq<Instr>, store: StoreView, f: FrameView)
    requires
        setting(sc, instrs),
        at_state(sc, instrs, f, 0),
        is_stateful(instrs[f.pc]),
        store.globals.len() == sc.module.globals.len(),
    ensures
        flow_ok(sc, instrs, f, stateful(store, f, instrs[f.pc]).1),
{
    let ins = instrs[f.pc];
    let vs = state_at(sc, instrs, f.pc)->0;
    lemma_state_at(sc, instrs, f.pc);
    lemma_ordered(sc, instrs, f.pc);
    lemma_plain(sc, vs, ins);
    let flow = stateful(store, f, ins).1;
    match flow {
        Flow::Go(g) => {
            lemma_next(sc, instrs, f, g, 0);
        },
        Flow::Stop(t) => {},
    }
}

/// A branch to the label `l`, which carries as many values as the
/// validator has found above the height of the current frame, does what
/// validation allows.
#[verifier::rlimit(50)]
pub proof fn lemma_branch(
    sc: Scope,
    instrs: Seq<Instr>,
    vs: Stacks,
    f: FrameView,
    l: int,
    bt: BlockType,
)
    requires
        setting(sc, instrs),
        matches_state(sc, instrs, vs, f, 0),
        ordered(vs),
        f.arity >= 0,
        0 <= l < f.labels.len(),
        f.labels[f.labels.len() - 1 - l].arity == width(bt),
        vs.opds.len() >= vs.ctrls.last().height + width(bt),
    ensures
        flow_ok(sc, instrs, f, branch(f, l)),
{
    let n = f.labels.len() as int;
    let i = n - 1 - l;
    let t = f.labels[i];
    let c = vs.ctrls[i];
    assert(label_ok(sc, instrs, vs.ctrls, i, t));
    assert(c.height <= vs.ctrls[n - 1].height);
    let flow = branch(f, l);
    assert(flow is Go);
    let g = flow->Go_0;
    if t.kind is Loop {
        let w = state_at(sc, instrs, t.cont as int)->0;
        assert(g.labels =~= f.labels.subrange(0, i + 1));
        assert(w.ctrls.len() == i + 1);
        if t.cont as int == instrs.len() {
            lemma_state_at(sc, instrs, instrs.len() as int);
        }
        assert(w.ctrls.last() == c);
        lemma_labels_prefix(sc, instrs, vs.ctrls, w.ctrls, f.labels, i + 1);
        assert forall|j: int| 0 <= j < g.labels.len() implies label_ok(
            sc,
            instrs,
            w.ctrls,
            j,
            #[trigger] g.labels[j],
        ) by {
            assert(g.labels[j] == f.labels[j]);
        }
        assert(reachable(w)) by {
            assert forall|j: int| 0 <= j < w.ctrls.len() implies !(#[trigger] w.ctrls[j]).unreachable by {
                assert(w.ctrls[j] == vs.ctrls.subrange(0, i + 1)[j]);
            }
        }
    } else if i == 0 {
        assert(g.labels =~= Seq::<Label>::empty());
    } else {
        let w = state_at(sc, instrs, t.cont as int)->0;
        assert(g.labels =~= f.labels.subrange(0, i));
        assert(w.ctrls.len() == i);
        if t.cont as int == instrs.len() {
            lemma_state_at(sc, instrs, instrs.len() as int);
        }
        lemma_ordered(sc, instrs, t.cont as int);
        lemma_labels_prefix(sc, instrs, vs.ctrls, w.ctrls, f.labels, i);
        assert forall|j: int| 0 <= j < g.labels.len() implies label_ok(
            sc,
            instrs,
            w.ctrls,
            j,
            #[trigger] g.labels[j],
        ) by {
            assert(g.labels[j] == f.labels[j]);
        }
        assert(reachable(w)) by {
            assert forall|j: int| 0 <= j < w.ctrls.len() implies !(#[trigger] w.ctrls[j]).unreachable by {
                assert(w.ctrls[j] == vs.ctrls.subrange(0, i)[j]);
            }
        }
        assert(g.labels[0] == f.labels[0]);
    }
}

/// Opening a region keeps the activation in the shape of the validator,
/// if the new label stands for the new frame.
proof fn lemma_push_label(
    sc: Scope,
    instrs: Seq<Instr>,
    vs: Stacks,
    vs2: Stacks,
    f: FrameView,
    g: FrameView,
    label: Label,
)
    requires
        reachable(vs),
        vs.ctrls.len() == f.labels.len(),
        f.labels.len() > 0,
        forall|i: int| 0 <= i < f.labels.len() ==> label_ok(sc, instrs, vs.ctrls, i, #[trigger] f.labels[i]),
        f.labels[0].arity == f.arity,
        vs2.ctrls.len() == vs.ctrls.len() + 1,
        vs2.ctrls.subrange(0, vs.ctrls.len() as int) =~= vs.ctrls,
        !vs2.ctrls.last().unreachable,
        vs2.opds.len() == g.stack.len(),
        vs2.ctrls.last().height <= g.stack.len(),
        g.labels == f.labels.push(label),
        g.arity == f.arity,
        label_ok(sc, instrs, vs2.ctrls, vs.ctrls.len() as int, label),
    ensures
        matches_state(sc, instrs, vs2, g, 0),
{
    let n = vs.ctrls.len() as int;
    assert(vs.ctrls.subrange(0, n) =~= vs.ctrls);
    lemma_labels_prefix(sc, instrs, vs.ctrls, vs2.ctrls, f.labels, n);
    assert forall|i: int| 0 <= i < g.labels.len() implies label_ok(
        sc,
        instrs,
        vs2.ctrls,
        i,
        #[trigger] g.labels[i],
    ) by {
        if i < n {
            assert(g.labels[i] == f.labels[i]);
        }
    }
    assert(reachable(vs2)) by {
        assert forall|j: int| 0 <= j < vs2.ctrls.len() implies !(#[trigger] vs2.ctrls[j]).unreachable by {
            if j < n {
                assert(vs2.ctrls[j] == vs2.ctrls.subrange(0, n)[j]);
            }
        }
    }
}

/// What is known when the activation is about to execute the opener of a
/// region, after the condition of an `if` has been taken: `p` is the
/// position of the opener, `f` the activation.
pub open spec fn opening(
    sc: Scope,
    instrs: Seq<Instr>,
    p: int,
    f: FrameView,
    bt: BlockType,
) -> bool {
    let vs = state_at(sc, instrs, p)->0;
    let vs2 = state_at(sc, instrs, p + 1)->0;
    &&& setting(sc, instrs)
    &&& 0 <= p < instrs.len()
    &&& state_at(sc, instrs, p) is Some
    &&& state_at(sc, instrs, p + 1) is Some
    &&& reachable(vs)
    &&& vs.ctrls.len() == f.labels.len()
    &&& f.labels.len() > 0
    &&& f.labels[0].arity == f.arity
    &&& (forall|i: int| 0 <= i < f.labels.len() ==> label_ok(sc, instrs, vs.ctrls, i, #[trigger] f.labels[i]))
    &&& vs2.ctrls.len() == vs.ctrls.len() + 1
    &&& vs2.ctrls.subrange(0, vs.ctrls.len() as int) =~= vs.ctrls
    &&& !vs2.ctrls.last().unreachable
    &&& !(vs2.ctrls.last().kind is Loop)
    &&& vs2.ctrls.last().result == bt
    &&& vs2.ctrls.last().height == f.stack.len()
    &&& vs2.opds.len() == f.stack.len()
}

/// Entering a block, or the first branch of an `if`: the scan finds the
/// end, and the new label stands for the new frame.
#[verifier::rlimit(50)]
proof fn lemma_enter_region(
    sc: Scope,
    instrs: Seq<Instr>,
    p: int,
    f: FrameView,
    bt: BlockType,
    kind: LabelKind,
)
    requires
        opening(sc, instrs, p, f, bt),
        f.pc == p,
        !(kind is Loop) && !(kind is Func),
    ensures
        scan(instrs, p + 1, 0, false) is Some,
        goes_on(
            sc,
            instrs,
            advance(
                opened(f, kind, scan(instrs, p + 1, 0, false)->0, bt),
            ),
            0,
        ),
{
    let vs = state_at(sc, instrs, p)->0;
    let vs2 = state_at(sc, instrs, p + 1)->0;
    let n = vs.ctrls.len() as int;
    let h = vs2.ctrls.last().height;
    lemma_scan(sc, instrs, p + 1, 0, false, vs.ctrls, h, bt);
    let e = scan(instrs, p + 1, 0, false)->0;
    let g = advance(opened(f, kind, e, bt));
    let w = state_at(sc, instrs, e + 1)->0;
    lemma_state_at(sc, instrs, e);
    lemma_state_at(sc, instrs, p + 1);
    assert(instrs[e] is End);
    assert(label_ok(sc, instrs, vs2.ctrls, n, g.labels.last()));
    lemma_push_label(sc, instrs, vs, vs2, f, g, g.labels.last());
}

/// Skipping to the `else` of an `if`, or past its end if it has none.
#[verifier::rlimit(50)]
proof fn lemma_skip_region(sc: Scope, instrs: Seq<Instr>, p: int, f: FrameView, bt: BlockType)
    requires
        opening(sc, instrs, p, f, bt),
        f.pc == p,
        state_at(sc, instrs, p + 1)->0.ctrls.last().kind is If,
        f.stack.len() <= usize::MAX,
    ensures
        scan(instrs, p + 1, 0, true) is Some,
        instrs[scan(instrs, p + 1, 0, true)->0] is Else ==> scan(
            instrs,
            scan(instrs, p + 1, 0, true)->0 + 1,
            0,
            false,
        ) is Some && goes_on(
            sc,
            instrs,
            FrameView {
                pc: scan(instrs, p + 1, 0, true)->0 + 1,
                ..opened(
                    f,
                    LabelKind::If,
                    scan(instrs, scan(instrs, p + 1, 0, true)->0 + 1, 0, false)->0,
                    bt,
                )
            },
            0,
        ),
        !(instrs[scan(instrs, p + 1, 0, true)->0] is Else) ==> goes_on(
            sc,
            instrs,
            FrameView { pc: scan(instrs, p + 1, 0, true)->0 + 1, ..f },
            0,
        ),
{
    let vs = state_at(sc, instrs, p)->0;
    let vs2 = state_at(sc, instrs, p + 1)->0;
    let n = vs.ctrls.len() as int;
    let h = vs2.ctrls.last().height;
    lemma_state_at(sc, instrs, p + 1);
    lemma_scan(sc, instrs, p + 1, 0, true, vs.ctrls, h, bt);
    let t = scan(instrs, p + 1, 0, true)->0;
    let w = state_at(sc, instrs, t + 1)->0;
    lemma_state_at(sc, instrs, t);
    lemma_state_at(sc, instrs, t + 1);
    lemma_ordered(sc, instrs, t + 1);
    if instrs[t] is Else {
        lemma_scan(sc, instrs, t + 1, 0, false, vs.ctrls, h, bt);
        let e = scan(instrs, t + 1, 0, false)->0;
        lemma_state_at(sc, instrs, e);
        let g = FrameView { pc: t + 1, ..opened(f, LabelKind::If, e, bt) };
        assert(instrs[e] is End);
        assert(label_ok(sc, instrs, w.ctrls, n, g.labels.last()));
        lemma_push_label(sc, instrs, vs, w, f, g, g.labels.last());
    } else {
        let g = FrameView { pc: t + 1, ..f };
        assert(w.ctrls =~= vs.ctrls);
        lemma_labels_prefix(sc, instrs, vs.ctrls, w.ctrls, f.labels, n);
        assert(reachable(w));
    }
}

/// The label that a branch to `l` targets carries what the validator
/// takes for it.
proof fn lemma_label_type(sc: Scope, instrs: Seq<Instr>, vs: Stacks, f: FrameView, l: u32)
    requires
        matches_state(sc, instrs, vs, f, 0),
        label_type(vs, l) is Some,
    ensures
        0 <= l < f.labels.len(),
        f.labels[f.labels.len() - 1 - l].arity == width(label_type(vs, l)->0),
{
    let i = f.labels.len() - 1 - l;
    assert(label_ok(sc, instrs, vs.ctrls, i, f.labels[i]));
}

/// Taking the top operand keeps the activation in the shape of the
/// validator.
proof fn lemma_popped(sc: Scope, instrs: Seq<Instr>, vs: Stacks, f: FrameView, t: ValType)
    requires
        matches_state(sc, instrs, vs, f, 0),
        pop(vs, t) is Some,
    ensures
        f.stack.len() > 0,
        matches_state(sc, instrs, pop(vs, t)->0, popped(f), 0),
        pop(vs, t)->0.ctrls == vs.ctrls,
{
    lemma_pop(vs, t);
    let g = popped(f);
    assert forall|i: int| 0 <= i < g.labels.len() implies label_ok(
        sc,
        instrs,
        pop(vs, t)->0.ctrls,
        i,
        #[trigger] g.labels[i],
    ) by {
        assert(label_ok(sc, instrs, vs.ctrls, i, f.labels[i]));
    }
}

proof fn lemma_flow_from_popped(sc: Scope, instrs: Seq<Instr>, f: FrameView, flow: Flow)
    requires
        flow_ok(sc, instrs, popped(f), flow),
        f.stack.len() > 0,
    ensures
        flow_ok(sc, instrs, f, flow),
{
}

/// The instructions that branch do what validation allows.
#[verifier::rlimit(50)]
proof fn lemma_branches(sc: Scope, instrs: Seq<Instr>, code: CodeView, f: FrameView)
    requires
        setting(sc, instrs),
        at_state(sc, instrs, f, 0),
        code.instrs == instrs,
        code.labels == sc.pool,
        f.arity == width(sc.result),
        instrs[f.pc] is Br || instrs[f.pc] is BrIf || instrs[f.pc] is BrTable || instrs[f.pc]
            is Return,
    ensures
        flow_ok(sc, instrs, f, control(code, f, instrs[f.pc])),
{
    let ins = instrs[f.pc];
    let vs = state_at(sc, instrs, f.pc)->0;
    let i32t = ValType::I32;
    lemma_state_at(sc, instrs, f.pc);
    lemma_ordered(sc, instrs, f.pc);
    match ins {
        Instr::Br(l) => {
            let bt = label_type(vs, l)->0;
            lemma_label_type(sc, instrs, vs, f, l);
            lemma_pop_block(vs, bt);
            lemma_branch(sc, instrs, vs, f, l as int, bt);
        },
        Instr::BrIf(l) => {
            lemma_popped(sc, instrs, vs, f, i32t);
            lemma_pop(vs, i32t);
            let st1 = pop(vs, i32t)->0;
            let g = popped(f);
            let bt = label_type(st1, l)->0;
            lemma_pop_block(st1, bt);
            if f.stack.last() as u32 != 0 {
                lemma_label_type(sc, instrs, st1, g, l);
                lemma_branch(sc, instrs, st1, g, l as int, bt);
                lemma_flow_from_popped(sc, instrs, f, branch(g, l as int));
            } else {
                let vs2 = state_at(sc, instrs, f.pc + 1)->0;
                let h = advance(g);
                lemma_state_at(sc, instrs, f.pc + 1);
                assert(vs2.ctrls == vs.ctrls);
                assert forall|i: int| 0 <= i < h.labels.len() implies label_ok(
                    sc,
                    instrs,
                    vs2.ctrls,
                    i,
                    #[trigger] h.labels[i],
                ) by {
                    assert(label_ok(sc, instrs, vs.ctrls, i, f.labels[i]));
                }
            }
        },
        Instr::BrTable { first, count } => {
            lemma_popped(sc, instrs, vs, f, i32t);
            lemma_pop(vs, i32t);
            let st1 = pop(vs, i32t)->0;
            let g = popped(f);
            let bt = label_type(st1, sc.pool[first + count])->0;
            lemma_pop_block(st1, bt);
            let i = f.stack.last() as u32;
            let slot = if i < count {
                first + i
            } else {
                first + count
            };
            let l = sc.pool[slot];
            assert(label_type(st1, l) == Some(bt));
            lemma_label_type(sc, instrs, st1, g, l);
            lemma_branch(sc, instrs, st1, g, l as int, bt);
            lemma_flow_from_popped(sc, instrs, f, branch(g, l as int));
        },
        Instr::Return => {
            lemma_pop_block(vs, sc.result);
            assert(label_ok(sc, instrs, vs.ctrls, 0, f.labels[0]));
            lemma_branch(sc, instrs, vs, f, f.labels.len() - 1, sc.result);
        },
        _ => {},
    }
}

/// `else` and `end`, reached at the end of a region, do what validation
/// allows.
#[verifier::rlimit(50)]
proof fn lemma_closers(sc: Scope, instrs: Seq<Instr>, code: CodeView, f: FrameView)
    requires
        setting(sc, instrs),
        at_state(sc, instrs, f, 0),
        code.instrs == instrs,
        f.arity >= 0,
        instrs[f.pc] is Else || instrs[f.pc] is End,
    ensures
        flow_ok(sc, instrs, f, control(code, f, instrs[f.pc])),
{
    let ins = instrs[f.pc];
    let vs = state_at(sc, instrs, f.pc)->0;
    let n = f.labels.len() as int;
    lemma_state_at(sc, instrs, f.pc);
    lemma_ordered(sc, instrs, f.pc);
    lemma_effect(sc, vs, ins);
    lemma_leave(vs);
    let top = vs.ctrls.last();
    let l = f.labels.last();
    assert(label_ok(sc, instrs, vs.ctrls, n - 1, l));
    assert(label_ok(sc, instrs, vs.ctrls, 0, f.labels[0]));
    let flow = control(code, f, ins);
    let g = flow->Go_0;
    if n == 1 {
        assert(g.labels =~= Seq::<Label>::empty());
    } else {
        let q = if ins is Else {
            l.cont as int
        } else {
            f.pc + 1
        };
        let w = state_at(sc, instrs, q)->0;
        lemma_state_at(sc, instrs, f.pc + 1);
        assert(w.ctrls =~= vs.ctrls.subrange(0, n - 1));
        assert(w.opds.len() == f.stack.len());
        if q == instrs.len() {
            lemma_state_at(sc, instrs, instrs.len() as int);
        }
        lemma_ordered(sc, instrs, q);
        lemma_labels_prefix(sc, instrs, vs.ctrls, w.ctrls, f.labels, n - 1);
        assert(g.labels =~= f.labels.subrange(0, n - 1));
        assert forall|j: int| 0 <= j < g.labels.len() implies label_ok(
            sc,
            instrs,
            w.ctrls,
            j,
            #[trigger] g.labels[j],
        ) by {
            assert(g.labels[j] == f.labels[j]);
        }
        assert(reachable(w)) by {
            assert forall|j: int| 0 <= j < w.ctrls.len() implies !(#[trigger] w.ctrls[j]).unreachable by {
                assert(w.ctrls[j] == vs.ctrls.subrange(0, n - 1)[j]);
            }
        }
        assert(g.labels[0] == f.labels[0]);
    }
}

/// `block`, `loop` and `if` do what validation allows.
#[verifier::rlimit(50)]
proof fn lemma_openers(sc: Scope, instrs: Seq<Instr>, code: CodeView, f: FrameView)
    requires
        setting(sc, instrs),
        at_state(sc, instrs, f, 0),
        code.instrs == instrs,
        instrs[f.pc] is Block || instrs[f.pc] is Loop || instrs[f.pc] is If,
    ensures
        flow_ok(sc, instrs, f, control(code, f, instrs[f.pc])),
{
    let ins = instrs[f.pc];
    let vs = state_at(sc, instrs, f.pc)->0;
    let vs2 = state_at(sc, instrs, f.pc + 1)->0;
    let n = f.labels.len() as int;
    let i32t = ValType::I32;
    lemma_state_at(sc, instrs, f.pc);
    lemma_state_at(sc, instrs, f.pc + 1);
    lemma_ordered(sc, instrs, f.pc);
    lemma_effect(sc, vs, ins);
    match ins {
        Instr::Block(bt) => {
            assert(opening(sc, instrs, f.pc, f, bt));
            lemma_enter_region(sc, instrs, f.pc, f, bt, LabelKind::Block);
        },
        Instr::Loop(bt) => {
            let flow = control(code, f, ins);
            let g = flow->Go_0;
            assert(vs2.ctrls.subrange(0, n + 1) =~= vs2.ctrls);
            assert(label_ok(sc, instrs, vs2.ctrls, n, g.labels.last()));
            lemma_push_label(sc, instrs, vs, vs2, f, g, g.labels.last());
        },
        Instr::If(bt) => {
            lemma_popped(sc, instrs, vs, f, i32t);
            let g = popped(f);
            assert(opening(sc, instrs, f.pc, g, bt));
            if f.stack.last() as u32 != 0 {
                lemma_enter_region(sc, instrs, f.pc, g, bt, LabelKind::If);
            } else {
                lemma_skip_region(sc, instrs, f.pc, g, bt);
            }
        },
        _ => {},
    }
}

/// The instructions of structured control do what validation allows.
pub proof fn lemma_control(sc: Scope, instrs: Seq<Instr>, code: CodeView, f: FrameView)
    requires
        setting(sc, instrs),
        at_state(sc, instrs, f, 0),
        code.instrs == instrs,
        code.labels == sc.pool,
        f.arity == width(sc.result),
        is_control(instrs[f.pc]),
    ensures
        flow_ok(sc, instrs, f, control(code, f, instrs[f.pc])),
{
    let ins = instrs[f.pc];
    if ins is Block || ins is Loop || ins is If {
        lemma_openers(sc, instrs, code, f);
    } else if ins is Else || ins is End {
        lemma_closers(sc, instrs, code, f);
    } else {
        lemma_branches(sc, instrs, code, f);
    }
}

/// A module that an instance can be made of: it is valid, it imports
/// nothing, and its bodies are short enough to be held.
pub open spec fn sound_module(d: DraftView) -> bool {
    &&& check_spec(d) is Ok
    &&& d.imports.len() == 0
    &&& forall|i: int| 0 <= i < d.codes.len() ==> (#[trigger] d.codes[i]).instrs.len() <= usize::MAX
}

/// What the body of the function `fi` is checked against.
pub open spec fn body_scope(d: DraftView, fi: int) -> Scope {
    scope_of(context_of(d), d, fi)
}

proof fn lemma_with_globals(d: DraftView, i: int, acc: Seq<GlobalType>)
    requires
        0 <= i <= d.globals.len(),
    ensures
        with_globals(d, i, acc).len() == acc.len() + d.globals.len() - i,
    decreases d.globals.len() - i,
{
    if i < d.globals.len() {
        lemma_with_globals(d, i + 1, acc.push(d.globals[i].ty));
    }
}

proof fn lemma_check_codes(c: Context, d: DraftView, i: int, fi: int)
    requires
        0 <= i <= fi < d.codes.len(),
        check_codes(c, d, i) is Ok,
    ensures
        check_code(c, d, fi) is Ok,
    decreases fi - i,
{
    if i < fi {
        lemma_check_codes(c, d, i + 1, fi);
    }
}

/// What validation has established of the function `fi` of a sound
/// module.
pub proof fn lemma_module(d: DraftView, fi: int)
    requires
        sound_module(d),
        0 <= fi < d.codes.len(),
    ensures
        d.funcs.len() == d.codes.len(),
        d.funcs[fi] < d.types.len(),
        setting(body_scope(d, fi), d.codes[fi].instrs),
        d.codes[fi].instrs.len() > 0,
        body_scope(d, fi).module.funcs =~= d.funcs,
        body_scope(d, fi).module.types == d.types,
        body_scope(d, fi).module.globals.len() == d.globals.len(),
        body_scope(d, fi).pool == d.codes[fi].labels,
        body_scope(d, fi).groups == d.codes[fi].locals,
        body_scope(d, fi).params == d.types[d.funcs[fi] as int].params,
        body_scope(d, fi).params.len() + local_count(d.codes[fi].locals, 0, 0)
            <= u32::MAX,
        width(body_scope(d, fi).result) == d.types[d.funcs[fi] as int].results.len(),
{
    let c = context_of(d);
    lemma_check_codes(c, d, 0, fi);
    lemma_with_globals(d, 0, Seq::empty());
    let sc = body_scope(d, fi);
    assert(types_ok(d));
    assert(small(sc)) by {
        assert forall|t: int| 0 <= t < sc.module.types.len() implies (
        #[trigger] sc.module.types[t]).results.len() <= 1 by {
            assert(d.types[t].results.len() <= 1);
        }
    }
    assert(d.types[d.funcs[fi] as int].results.len() <= 1);
    lemma_state_at(sc, d.codes[fi].instrs, 0);
}

/// The activation is one of the function it names, in the shape that
/// validation computed, but for `pending` operands that are still to come.
pub open spec fn frame_ok(d: DraftView, f: FrameView, pending: int) -> bool {
    &&& 0 <= f.func < d.codes.len()
    &&& f.locals.len() == body_scope(d, f.func).params.len() + local_count(
        d.codes[f.func].locals,
        0,
        0,
    )
    &&& f.arity == width(body_scope(d, f.func).result)
    &&& goes_on(body_scope(d, f.func), d.codes[f.func].instrs, f, pending)
}

/// The activations that wait for a call to return each lack the results
/// of the call above them, the last lacking `arity`.
pub open spec fn callers_ok(d: DraftView, callers: Seq<FrameView>, arity: int) -> bool {
    forall|j: int|
        0 <= j < callers.len() ==> (#[trigger] callers[j]).labels.len() > 0 && frame_ok(
            d,
            callers[j],
            if j + 1 < callers.len() {
                callers[j + 1].arity
            } else {
                arity
            },
        )
}

/// The running call is in the shape that validation computed.
pub open spec fn machine_ok(d: DraftView, m: MachineView, pending: int) -> bool {
    &&& frame_ok(d, m.frame, pending)
    &&& callers_ok(d, m.callers, m.frame.arity)
}

/// The store fits the module: it has the module's globals, and its table
/// holds functions of the module only.
pub open spec fn store_ok(d: DraftView, store: StoreView) -> bool {
    &&& store.globals.len() == d.globals.len()
    &&& forall|i: int|
        0 <= i < store.table.len() ==> ((#[trigger] store.table[i]) matches Some(fi) ==> fi
            < d.funcs.len())
}

/// The activation of a function of a sound module on as many arguments as
/// it has parameters exists and is in the shape that validation computed.
#[verifier::rlimit(50)]
pub proof fn lemma_activation(d: DraftView, fi: int, args: Seq<u64>)
    requires
        sound_module(d),
        callee_type(d, fi) is Some,
        callee_type(d, fi)->0.params.len() == args.len(),
    ensures
        activation(d, fi, args) is Some,
        frame_ok(d, activation(d, fi, args)->0, 0),
        activation(d, fi, args)->0.labels.len() > 0,
        activation(d, fi, args)->0.arity == callee_type(
            d,
            fi,
        )->0.results.len(),
{
    lemma_module(d, fi);
    let f = activation(d, fi, args)->0;
    let sc = body_scope(d, fi);
    let instrs = d.codes[fi].instrs;
    let vs = state_at(sc, instrs, 0)->0;
    assert(vs.ctrls.subrange(0, 1) =~= vs.ctrls);
    assert(label_ok(sc, instrs, vs.ctrls, 0, f.labels[0]));
    lemma_local_count_grows(d.codes[fi].locals, 0, 0);
    assert(f.locals.len() == args.len() + local_count(d.codes[fi].locals, 0, 0));
    assert(reachable(vs));
    assert(matches_state(sc, instrs, vs, f, 0));
    assert(at_state(sc, instrs, f, 0));
}

/// A call from an activation that has the arguments on its stack, where
/// the validator has applied the type of the callee, does what validation
/// allows.
#[verifier::rlimit(50)]
proof fn lemma_invoke(d: DraftView, m: MachineView, f: FrameView, st: Stacks, fi: int)
    requires
        sound_module(d),
        callers_ok(d, m.callers, f.arity),
        0 <= f.func < d.codes.len(),
        f.locals.len() == body_scope(d, f.func).params.len() + local_count(
            d.codes[f.func].locals,
            0,
            0,
        ),
        f.arity == width(body_scope(d, f.func).result),
        0 <= f.pc < d.codes[f.func].instrs.len(),
        matches_state(body_scope(d, f.func), d.codes[f.func].instrs, st, f, 0),
        ordered(st),
        callee_type(d, fi) is Some,
        apply(st, callee_type(d, fi)->0) is Some,
        state_at(body_scope(d, f.func), d.codes[f.func].instrs, f.pc + 1) == apply(
            st,
            callee_type(d, fi)->0,
        ),
    ensures
        invoke(d, m, f, fi).1 != Status::Trapped(Trap::InvalidCode),
        invoke(d, m, f, fi).1 is Running ==> machine_ok(
            d,
            invoke(d, m, f, fi).0,
            0,
        ),
{
    let ft = callee_type(d, fi)->0;
    let sc = body_scope(d, f.func);
    let instrs = d.codes[f.func].instrs;
    let n = ft.params.len() as int;
    lemma_module(d, f.func);
    lemma_apply(st, ft);
    let st2 = apply(st, ft)->0;
    let (m2, status) = invoke(d, m, f, fi);
    if m.callers.len() + 1 < CALL_DEPTH {
        let args = f.stack.subrange(f.stack.len() - n, f.stack.len() as int);
        lemma_activation(d, fi, args);
        let callee = activation(d, fi, args)->0;
        let caller = advance(
            FrameView { stack: f.stack.subrange(0, f.stack.len() - n), ..f },
        );
        lemma_state_at(sc, instrs, f.pc + 1);
        assert(matches_state(sc, instrs, st2, caller, callee.arity)) by {
            assert forall|i: int| 0 <= i < caller.labels.len() implies label_ok(
                sc,
                instrs,
                st2.ctrls,
                i,
                #[trigger] caller.labels[i],
            ) by {
                assert(label_ok(sc, instrs, st.ctrls, i, f.labels[i]));
            }
        }
        assert(frame_ok(d, caller, callee.arity));
        assert(callers_ok(d, m2.callers, callee.arity)) by {
            assert forall|j: int| 0 <= j < m2.callers.len() implies (
            #[trigger] m2.callers[j]).labels.len() > 0 && frame_ok(
                d,
                m2.callers[j],
                if j + 1 < m2.callers.len() {
                    m2.callers[j + 1].arity
                } else {
                    callee.arity
                },
            ) by {
                if j < m.callers.len() {
                    assert(m2.callers[j] == m.callers[j]);
                    if j + 1 < m.callers.len() {
                        assert(m2.callers[j + 1] == m.callers[j + 1]);
                    }
                }
            }
        }
    }
}

/// The end of an activation does what validation allows.
#[verifier::rlimit(50)]
proof fn lemma_finish(d: DraftView, m: MachineView)
    requires
        sound_module(d),
        machine_ok(d, m, 0),
        m.frame.labels.len() == 0,
    ensures
        finish(m).1 != Status::Trapped(Trap::InvalidCode),
        finish(m).1 is Running ==> machine_ok(d, finish(m).0, 0),
{
    let f = m.frame;
    let (m2, status) = finish(m);
    if m.callers.len() > 0 {
        let c = m.callers.last();
        let k = m.callers.len() - 1;
        assert(c == m.callers[k]);
        let sc = body_scope(d, c.func);
        let instrs = d.codes[c.func].instrs;
        let vs = state_at(sc, instrs, c.pc)->0;
        let g = m2.frame;
        assert(matches_state(sc, instrs, vs, g, 0)) by {
            assert forall|i: int| 0 <= i < g.labels.len() implies label_ok(
                sc,
                instrs,
                vs.ctrls,
                i,
                #[trigger] g.labels[i],
            ) by {
                assert(label_ok(sc, instrs, vs.ctrls, i, c.labels[i]));
            }
        }
        assert(callers_ok(d, m2.callers, g.arity)) by {
            assert forall|j: int| 0 <= j < m2.callers.len() implies (
            #[trigger] m2.callers[j]).labels.len() > 0 && frame_ok(
                d,
                m2.callers[j],
                if j + 1 < m2.callers.len() {
                    m2.callers[j + 1].arity
                } else {
                    g.arity
                },
            ) by {
                assert(m2.callers[j] == m.callers[j]);
                if j + 1 < m2.callers.len() {
                    assert(m2.callers[j + 1] == m.callers[j + 1]);
                }
            }
        }
    }
}

/// The machine after the flow of an instruction is in the shape that
/// validation computed, if the flow is what validation allows.
proof fn lemma_follow(d: DraftView, inst: InstanceView, m: MachineView, flow: Flow)
    requires
        machine_ok(d, m, 0),
        m.frame.labels.len() > 0,
        flow_ok(body_scope(d, m.frame.func), d.codes[m.frame.func].instrs, m.frame, flow),
    ensures
        follow(inst, m, flow).status != Status::Trapped(
            Trap::InvalidCode,
        ),
        follow(inst, m, flow).status is Running ==> machine_ok(
            d,
            follow(inst, m, flow).mach,
            0,
        ),
{
}

/// One step from a state in the shape that validation computed never
/// finds the code invalid, and leads to such a state again.
#[verifier::rlimit(50)]
pub proof fn lemma_step(inst: InstanceView, m: MachineView)
    requires
        sound_module(inst.module),
        store_ok(inst.module, inst.store),
        machine_ok(inst.module, m, 0),
    ensures
        step(inst, m).status != Status::Trapped(Trap::InvalidCode),
        step(inst, m).inst.module == inst.module,
        store_ok(inst.module, step(inst, m).inst.store),
        step(inst, m).status is Running ==> machine_ok(
            inst.module,
            step(inst, m).mach,
            0,
        ),
{
    let d = inst.module;
    let f = m.frame;
    lemma_step_evolves(inst, m);
    if f.labels.len() == 0 {
        lemma_finish(d, m);
    } else {
        lemma_module(d, f.func);
        let sc = body_scope(d, f.func);
        let code = d.codes[f.func];
        let instrs = code.instrs;
        let ins = instrs[f.pc];
        let vs = state_at(sc, instrs, f.pc)->0;
        let i32t = ValType::I32;
        lemma_state_at(sc, instrs, f.pc);
        lemma_ordered(sc, instrs, f.pc);
        match ins {
            Instr::Call(fi) => {
                lemma_invoke(d, m, f, vs, fi as int);
            },
            Instr::CallIndirect(t) => {
                lemma_popped(sc, instrs, vs, f, i32t);
                lemma_pop(vs, i32t);
                let st1 = pop(vs, i32t)->0;
                let i = f.stack.last() as u32;
                if i < inst.store.table.len() {
                    match inst.store.table[i as int] {
                        Some(fi) => {
                            let ft = callee_type(d, fi as int)->0;
                            if ft == d.types[t as int] {
                                lemma_invoke(d, m, popped(f), st1, fi as int);
                            }
                        },
                        None => {},
                    }
                }
            },
            Instr::Unreachable => {},
            _ => {
                if is_control(ins) {
                    lemma_control(sc, instrs, code, f);
                    lemma_follow(d, inst, m, control(code, f, ins));
                } else if is_stateful(ins) {
                    lemma_stateful(sc, instrs, inst.store, f);
                    let (store, flow) = stateful(inst.store, f, ins);
                    lemma_follow(d, InstanceView { store, ..inst }, m, flow);
                } else {
                    lemma_basic(sc, instrs, f);
                    lemma_follow(d, inst, m, basic(f, ins));
                }
            },
        }
    }
}

/// A run from a state in the shape that validation computed never finds
/// the code invalid.
pub proof fn lemma_run(inst: InstanceView, m: MachineView, fuel: nat)
    requires
        sound_module(inst.module),
        store_ok(inst.module, inst.store),
        machine_ok(inst.module, m, 0),
    ensures
        run(inst, m, fuel).status != Status::Trapped(
            Trap::InvalidCode,
        ),
        run(inst, m, fuel).inst.module == inst.module,
        store_ok(inst.module, run(inst, m, fuel).inst.store),
    decreases fuel,
{
    if fuel > 0 {
        lemma_step(inst, m);
        let s = step(inst, m);
        if s.status is Running {
            lemma_run(s.inst, s.mach, (fuel - 1) as nat);
        }
    }
}

/// In an instance of a valid module, a call of a function with as many
/// arguments as it has parameters fails only with a trap of execution,
/// whatever number of steps it is given: the interpreter never finds the
/// stack or the code in a shape that validation has excluded.
pub proof fn lemma_call_within(inst: InstanceView, f: u32, args: Seq<u64>, budget: nat)
    requires
        sound_module(inst.module),
        store_ok(inst.module, inst.store),
        accepts_spec(inst.module, f, args.len()),
    ensures
        call_within(inst, f, args, budget).status != Status::Trapped(
            Trap::InvalidCode,
        ),
        call_within(inst, f, args, budget).inst.module == inst.module,
        store_ok(inst.module, call_within(inst, f, args, budget).inst.store),
{
    lemma_activation(inst.module, f as int, args);
    let frame = activation(inst.module, f as int, args)->0;
    let m = MachineView { frame, callers: Seq::empty() };
    lemma_run(inst, m, budget);
}

/// The same of a call that is given the number of steps of `execute`.
pub proof fn lemma_valid_code_runs(inst: InstanceView, f: u32, args: Seq<u64>)
    requires
        sound_module(inst.module),
        store_ok(inst.module, inst.store),
        accepts_spec(inst.module, f, args.len()),
    ensures
        call_spec(inst, f, args).status != Status::Trapped(
            Trap::InvalidCode,
        ),
        execute_spec(inst, f, args).0.trap != Some(Trap::InvalidCode),
        store_ok(inst.module, execute_spec(inst, f, args).1.store),
{
    lemma_call_within(inst, f, args, STEP_BUDGET as nat);
}

proof fn lemma_initial_globals(d: DraftView, i: int, acc: Seq<u64>)
    requires
        0 <= i <= d.globals.len(),
        initial_globals(d, i, acc) is Some,
    ensures
        initial_globals(d, i, acc)->0.len() == acc.len() + d.globals.len() - i,
    decreases d.globals.len() - i,
{
    if i < d.globals.len() {
        lemma_initial_globals(d, i + 1, acc.push(const_bits(d.globals[i].init)->0));
    }
}

/// A table holds functions of the module only.
pub open spec fn table_ok(d: DraftView, table: Seq<Option<u32>>) -> bool {
    forall|i: int| 0 <= i < table.len() ==> ((#[trigger] table[i]) matches Some(fi) ==> fi < d.funcs.len())
}

proof fn lemma_place_elements(d: DraftView, i: int, table: Seq<Option<u32>>)
    requires
        0 <= i <= d.elems.len(),
        elements_ok(context_of(d), d),
        context_of(d).funcs.len() == d.funcs.len(),
        table_ok(d, table),
        place_elements(d, i, table) is Some,
    ensures
        table_ok(d, place_elements(d, i, table)->0),
    decreases d.elems.len() - i,
{
    if i < d.elems.len() {
        let at = const_bits(d.elems[i].offset)->0 as u32 as int;
        let init = d.elems[i].init;
        let next = Seq::new(
            table.len(),
            |k: int|
                if at <= k < at + init.len() {
                    Some(init[k - at])
                } else {
                    table[k]
                },
        );
        assert(element_ok(context_of(d), d.elems[i]));
        assert(table_ok(d, next)) by {
            assert forall|k: int| 0 <= k < next.len() implies ((#[trigger] next[k]) matches Some(fi)
                ==> fi < d.funcs.len()) by {
                if at <= k < at + init.len() {
                    assert(init[k - at] < d.funcs.len());
                } else {
                    assert(next[k] == table[k]);
                }
            }
        }
        lemma_place_elements(d, i + 1, next);
    }
}

/// The store that a valid module starts with fits the module, which is
/// sound.
pub proof fn lemma_initial_store(d: DraftView)
    requires
        check_spec(d) is Ok,
        forall|i: int| 0 <= i < d.codes.len() ==> (#[trigger] d.codes[i]).instrs.len() <= usize::MAX,
        initial_store(d) is Some,
    ensures
        sound_module(d),
        store_ok(d, initial_store(d)->0),
{
    let c = context_of(d);
    lemma_initial_globals(d, 0, Seq::empty());
    let table = if d.tables.len() > 0 {
        Seq::new(d.tables[0].min as nat, |k: int| None::<u32>)
    } else {
        Seq::empty()
    };
    assert(c.funcs =~= d.funcs);
    lemma_place_elements(d, 0, table);
}

/// The start function of a valid module can be called without arguments.
pub proof fn lemma_start(d: DraftView)
    requires
        sound_module(d),
        d.start is Some,
    ensures
        accepts_spec(d, d.start->0, 0),
{
    let c = context_of(d);
    assert(start_ok(c, d));
    assert(c.funcs =~= d.funcs);
    assert(functions_ok(d));
}

/// The instance of a valid module is made of a sound module and a store
/// that fits it.
pub proof fn lemma_instantiate(d: DraftView)
    requires
        check_spec(d) is Ok,
        forall|i: int| 0 <= i < d.codes.len() ==> (#[trigger] d.codes[i]).instrs.len() <= usize::MAX,
        instantiate_spec(d) is Some,
    ensures
        sound_module(d),
        instantiate_spec(d)->0.module == d,
        store_ok(d, instantiate_spec(d)->0.store),
{
    lemma_initial_store(d);
    let inst = InstanceView { module: d, store: initial_store(d)->0 };
    if d.start is Some {
        lemma_start(d);
        lemma_valid_code_runs(inst, d.start->0, Seq::empty());
    }
}

} // verus!

//! What holds of the engine as a whole, proved from the definitions that
//! the contracts of its functions are stated in.
use vstd::prelude::*;
use crate::floats::{bit_length, lemma_bit_length, lemma_pow2_sum, parts, truncates};
use crate::format::{
    code_at, codes_from, decode_spec, groups_from, has_magic, has_version, instr_at,
    instrs_from, opens, section_at, sections_from, u32_at, valtype_at,
};
use crate::instance::{
    accepts_spec, execute_spec, instantiate_spec, outcome, parse_spec, start_of, validate_spec,
};
use crate::leb128::{lemma_pow2_monotonic, lemma_pow2_step, lemma_uleb_bounds, pow2};
use crate::numeric::{Num, binary, unary};
use crate::ops::numeric_sig;
use crate::semantics::{
    InstanceView, MachineView, PAGE_LIMIT, PAGE_SIZE, STEP_BUDGET, Status, StoreView, follow,
    is_control, is_stateful, run, stateful, step,
};
use crate::soundness::{lemma_instantiate, lemma_valid_code_runs, store_ok};
use crate::types::{CodeView, DraftView, Instr, LocalGroup, empty_draft};
use crate::typing::{check_spec, context_of};
use crate::value::{ExecutionResult, Trap};

verus! {

/// A byte sequence that is shorter than the preamble, or does not start
/// with the magic bytes and version 1, is no module: it is neither valid
/// nor parsed.
pub proof fn lemma_preamble_is_required(bytes: Seq<u8>)
    requires
        bytes.len() < 8 || !has_magic(bytes) || !has_version(bytes),
    ensures
        decode_spec(bytes) is Err,
        !validate_spec(bytes),
        parse_spec(bytes) is None,
{
}

/// The preamble alone is the empty module, which is valid.
pub proof fn lemma_preamble_alone_is_valid(bytes: Seq<u8>)
    requires
        bytes.len() == 8,
        has_magic(bytes),
        has_version(bytes),
    ensures
        validate_spec(bytes),
        parse_spec(bytes) == Some(empty_draft()),
{
    let d = empty_draft();
    assert(sections_from(bytes, 8, 0, d) == Some(d));
    let c = context_of(d);
    assert(c.tables =~= Seq::empty());
    assert(c.mems =~= Seq::empty());
    assert(check_spec(d) is Ok);
}

/// A byte sequence is valid exactly when parsing it gives a module.
pub proof fn lemma_valid_iff_parsed(bytes: Seq<u8>)
    ensures
        validate_spec(bytes) <==> parse_spec(bytes) is Some,
{
}

/// A call is a function of the state of the instance and the arguments:
/// the same call on the same state gives the same result and leaves the
/// same state.
pub proof fn lemma_same_call_same_result(
    a: InstanceView,
    b: InstanceView,
    f: u32,
    x: Seq<u64>,
    y: Seq<u64>,
)
    requires
        a.module == b.module,
        a.store =~= b.store,
        x =~= y,
    ensures
        execute_spec(a, f, x) == execute_spec(b, f, y),
{
}

/// Whether `op` is an integer division or remainder.
pub open spec fn divides(op: u8) -> bool {
    0x6d <= op <= 0x70 || 0x7f <= op <= 0x82
}

/// Whether `b` is zero as an operand of `op`: a 32-bit instruction looks
/// at the low half only.
pub open spec fn zero_for(op: u8, b: u64) -> bool {
    if op <= 0x70 {
        b as u32 == 0
    } else {
        b == 0
    }
}

/// An integer division or remainder by zero traps, whatever the dividend.
pub proof fn lemma_division_by_zero(op: u8, a: u64, b: u64)
    requires
        divides(op),
        zero_for(op, b),
    ensures
        binary(op, a, b) == Num::Trap(Trap::DivisionByZero),
{
}

/// The signed division of the smallest integer by -1 traps.
pub proof fn lemma_division_overflow(a: u64, b: u64)
    ensures
        a as u32 == 0x8000_0000u32 && b as u32 == 0xffff_ffffu32 ==> binary(0x6d, a, b) == Num::Trap(
            Trap::IntegerOverflow,
        ),
        a == 0x8000_0000_0000_0000u64 && b == 0xffff_ffff_ffff_ffffu64 ==> binary(0x7f, a, b)
            == Num::Trap(Trap::IntegerOverflow),
{
    assert(0x8000_0000u32 as i32 == i32::MIN) by (bit_vector);
    assert(0xffff_ffffu32 as i32 == -1i32) by (bit_vector);
    assert(0x8000_0000_0000_0000u64 as i64 == i64::MIN) by (bit_vector);
    assert(0xffff_ffff_ffff_ffffu64 as i64 == -1i64) by (bit_vector);
}

/// The machine is about to execute the instruction `ins`.
pub open spec fn at_instr(inst: InstanceView, m: MachineView, ins: Instr) -> bool {
    let f = m.frame;
    &&& f.labels.len() > 0
    &&& 0 <= f.func < inst.module.codes.len()
    &&& 0 <= f.pc < inst.module.codes[f.func].instrs.len()
    &&& inst.module.codes[f.func].instrs[f.pc] == ins
}

/// A call that reaches an integer division with a zero divisor on top of
/// the operand stack ends there with a trap: it returns no value, and the
/// instance is as it was before that instruction.
pub proof fn lemma_division_by_zero_ends_the_call(
    inst: InstanceView,
    m: MachineView,
    op: u8,
    fuel: nat,
)
    requires
        divides(op),
        at_instr(inst, m, Instr::Numeric(op)),
        m.frame.stack.len() >= 2,
        zero_for(op, m.frame.stack.last()),
        fuel > 0,
    ensures
        run(inst, m, fuel).status == Status::Trapped(Trap::DivisionByZero),
        run(inst, m, fuel).inst == inst,
        outcome(run(inst, m, fuel).status).trapped,
        !outcome(run(inst, m, fuel).status).has_value,
{
    let f = m.frame;
    let n = f.stack.len() as int;
    lemma_division_by_zero(op, f.stack[n - 2], f.stack[n - 1]);
    assert(numeric_sig(op) is Some && numeric_sig(op)->0.binary);
    assert(step(inst, m).status == Status::Trapped(Trap::DivisionByZero));
}

/// An indirect call through a table slot that holds no function traps with
/// "null function reference". The instance is as it was, and can be
/// called again.
pub proof fn lemma_null_slot_traps(inst: InstanceView, m: MachineView, t: u32, fuel: nat)
    requires
        at_instr(inst, m, Instr::CallIndirect(t)),
        t < inst.module.types.len(),
        m.frame.stack.len() > 0,
        (m.frame.stack.last() as u32) < inst.store.table.len(),
        inst.store.table[m.frame.stack.last() as u32 as int] is None,
        fuel > 0,
    ensures
        run(inst, m, fuel).status == Status::Trapped(Trap::NullFunctionReference),
        run(inst, m, fuel).inst == inst,
        outcome(run(inst, m, fuel).status) == ExecutionResult::trapped_with(
            Trap::NullFunctionReference,
        ),
        Trap::NullFunctionReference.message_spec() == "null function reference"@,
{
    assert(step(inst, m).status == Status::Trapped(Trap::NullFunctionReference));
}

/// A call ends in exactly one of three ways, and a trap carries no value.
pub proof fn lemma_result_is_well_formed(inst: InstanceView, f: u32, args: Seq<u64>)
    ensures
        execute_spec(inst, f, args).0.wf(),
        execute_spec(inst, f, args).1.module == inst.module,
{
}

/// What a call may do to the store: the table and the number of globals
/// stay, and the memory keeps its limit and changes its size only by
/// growing, by whole pages and within the limit.
pub open spec fn evolves(before: StoreView, after: StoreView) -> bool {
    &&& after.table == before.table
    &&& after.globals.len() == before.globals.len()
    &&& after.max_pages == before.max_pages
    &&& after.memory.len() >= before.memory.len()
    &&& (after.memory.len() - before.memory.len()) % (PAGE_SIZE as int) == 0
    &&& after.memory.len() > before.memory.len() ==> after.memory.len() / (PAGE_SIZE as nat)
        <= before.max_pages && before.max_pages <= PAGE_LIMIT
}

/// One step changes the store only as `evolves` allows.
#[verifier::rlimit(50)]
pub proof fn lemma_step_evolves(inst: InstanceView, m: MachineView)
    ensures
        step(inst, m).inst.module == inst.module,
        evolves(inst.store, step(inst, m).inst.store),
{
    let d = inst.module;
    let f = m.frame;
    if f.labels.len() > 0 && 0 <= f.func < d.codes.len() && 0 <= f.pc
        < d.codes[f.func].instrs.len() {
        let ins = d.codes[f.func].instrs[f.pc];
        if is_stateful(ins) && !is_control(ins) && !(ins is Call) && !(ins is CallIndirect) {
            let (store, flow) = stateful(inst.store, f, ins);
            assert(follow(InstanceView { store, ..inst }, m, flow).inst.store == store);
            if ins is MemoryGrow && f.stack.len() >= 1 {
                let pages = inst.store.memory.len() / PAGE_SIZE as nat;
                let delta = f.stack.last() as u32;
                if pages + delta <= inst.store.max_pages && inst.store.max_pages <= PAGE_LIMIT {
                    assert(store.memory.len() == inst.store.memory.len() + delta * PAGE_SIZE);
                    assert((delta * PAGE_SIZE) % (PAGE_SIZE as int) == 0) by (nonlinear_arith);
                    assert(store.memory.len() / (PAGE_SIZE as nat) <= pages + delta) by {
                        assert(inst.store.memory.len() < (pages + 1) * PAGE_SIZE);
                        assert((pages + 1) * PAGE_SIZE + delta * PAGE_SIZE == (pages + 1 + delta)
                            * PAGE_SIZE) by (nonlinear_arith);
                    }
                }
            }
        }
    }
}

/// `evolves` is transitive.
pub proof fn lemma_evolves_transitive(a: StoreView, b: StoreView, c: StoreView)
    requires
        evolves(a, b),
        evolves(b, c),
    ensures
        evolves(a, c),
{
}

/// A run of any length changes the store only as `evolves` allows, and
/// never the module.
pub proof fn lemma_run_evolves(inst: InstanceView, m: MachineView, fuel: nat)
    ensures
        run(inst, m, fuel).inst.module == inst.module,
        evolves(inst.store, run(inst, m, fuel).inst.store),
    decreases fuel,
{
    if fuel > 0 {
        let s = step(inst, m);
        lemma_step_evolves(inst, m);
        if s.status is Running {
            lemma_run_evolves(s.inst, s.mach, (fuel - 1) as nat);
            lemma_evolves_transitive(
                inst.store,
                s.inst.store,
                run(s.inst, s.mach, (fuel - 1) as nat).inst.store,
            );
        }
    }
}

/// A call never changes the module, the table or the number of globals of
/// an instance, and its memory only grows, within its limit.
pub proof fn lemma_call_evolves(inst: InstanceView, f: u32, args: Seq<u64>)
    ensures
        execute_spec(inst, f, args).1.module == inst.module,
        evolves(inst.store, execute_spec(inst, f, args).1.store),
{
    match start_of(inst, f, args) {
        Some(m) => {
            lemma_run_evolves(inst, m, STEP_BUDGET as nat);
        },
        None => {},
    }
}

/// No body of the draft has more than `n` instructions.
pub open spec fn bodies_within(d: DraftView, n: int) -> bool {
    forall|i: int| 0 <= i < d.codes.len() ==> (#[trigger] d.codes[i]).instrs.len() <= n
}

proof fn lemma_instrs_within(
    s: Seq<u8>,
    pos: int,
    end: int,
    depth: nat,
    instrs: Seq<Instr>,
    labels: Seq<u32>,
)
    requires
        instrs_from(s, pos, end, depth, instrs, labels) is Some,
    ensures
        pos < end,
        (instrs_from(s, pos, end, depth, instrs, labels)->0).0.len() <= instrs.len()
            + end - pos,
    decreases end - pos,
{
    let found = instr_at(s, pos, labels.len() as int)->0;
    let i = found.0;
    let next = found.2;
    if !(i is End && depth <= 1) {
        let d = if i is End {
            (depth - 1) as nat
        } else if opens(i) {
            depth + 1
        } else {
            depth
        };
        lemma_instrs_within(s, next, end, d, instrs.push(i), labels + found.1);
    }
}

#[verifier::rlimit(50)]

proof fn lemma_codes_within(s: Seq<u8>, pos: int, n: nat, acc: Seq<CodeView>)
    requires
        codes_from(s, pos, n, acc) is Some,
        forall|i: int| 0 <= i < acc.len() ==> (#[trigger] acc[i]).instrs.len() <= s.len(),
    ensures
        forall|i: int|
            0 <= i < (codes_from(s, pos, n, acc)->0).0.len() ==> (#[trigger] (
            codes_from(s, pos, n, acc)->0).0[i]).instrs.len() <= s.len(),
    decreases n,
{
    if n > 0 {
        let found = code_at(s, pos)->0;
        let size = u32_at(s, pos)->0;
        let groups = u32_at(s, size.1)->0;
        let locals = groups_from(s, groups.1, groups.0 as nat, Seq::empty(), 0)->0;
        lemma_uleb_bounds(s, pos, 32);
        lemma_instrs_within(s, locals.1, size.1 + size.0, 1, Seq::empty(), Seq::empty());
        lemma_groups_forward(s, groups.1, groups.0 as nat, Seq::empty(), 0);
        lemma_uleb_bounds(s, size.1, 32);
        let next = acc.push(found.0);
        assert forall|i: int| 0 <= i < next.len() implies (#[trigger] next[i]).instrs.len()
            <= s.len() by {
            if i < acc.len() {
                assert(next[i] == acc[i]);
            }
        }
        lemma_codes_within(s, found.1, (n - 1) as nat, next);
    }
}

proof fn lemma_groups_forward(
    s: Seq<u8>,
    pos: int,
    n: nat,
    acc: Seq<LocalGroup>,
    total: int,
)
    requires
        groups_from(s, pos, n, acc, total) is Some,
    ensures
        (groups_from(s, pos, n, acc, total)->0).1 >= pos,
    decreases n,
{
    if n > 0 {
        let count = u32_at(s, pos)->0;
        let ty = valtype_at(s, count.1)->0;
        lemma_uleb_bounds(s, pos, 32);
        lemma_groups_forward(
            s,
            ty.1,
            (n - 1) as nat,
            acc.push(LocalGroup { count: count.0, ty: ty.0 }),
            total + count.0,
        );
    }
}

#[verifier::rlimit(50)]

proof fn lemma_sections_within(s: Seq<u8>, pos: int, last: int, d: DraftView)
    requires
        sections_from(s, pos, last, d) is Some,
        bodies_within(d, s.len() as int),
    ensures
        bodies_within(sections_from(s, pos, last, d)->0, s.len() as int),
    decreases s.len() - pos,
{
    if 0 <= pos < s.len() {
        let id = s[pos];
        let size = u32_at(s, pos + 1)->0;
        let end = size.1 + size.0;
        if id == 0 {
            lemma_sections_within(s, end, last, d);
        } else {
            let found = section_at(s, id, size.1, d)->0;
            if id == 10 {
                let n = u32_at(s, size.1)->0;
                lemma_codes_within(s, n.1, n.0 as nat, Seq::empty());
            }
            assert(bodies_within(found.0, s.len() as int)) by {
                if id != 10 {
                    assert(found.0.codes == d.codes);
                }
            }
            lemma_sections_within(s, end, id as int, found.0);
        }
    }
}

/// No body of a decoded module has more instructions than the input has
/// bytes.
pub proof fn lemma_decoded_within(bytes: Seq<u8>)
    requires
        decode_spec(bytes) is Ok,
    ensures
        bodies_within(decode_spec(bytes)->Ok_0, bytes.len() as int),
{
    lemma_sections_within(bytes, 8, 0, empty_draft());
}

/// The round trip: a module that has been parsed and instantiated runs
/// its functions without ever being found invalid. A call with as many
/// arguments as the function has parameters ends with a value, with none,
/// or with a trap of execution, and leaves an instance that can be called
/// again.
pub proof fn lemma_round_trip(bytes: Seq<u8>, f: u32, args: Seq<u64>)
    requires
        bytes.len() <= usize::MAX,
        parse_spec(bytes) is Some,
        instantiate_spec(parse_spec(bytes)->0) is Some,
        accepts_spec(parse_spec(bytes)->0, f, args.len()),
    ensures
        execute_spec(instantiate_spec(parse_spec(bytes)->0)->0, f, args).0.wf(),
        execute_spec(instantiate_spec(parse_spec(bytes)->0)->0, f, args).0.trap
            != Some(Trap::InvalidCode),
        store_ok(
            parse_spec(bytes)->0,
            execute_spec(instantiate_spec(parse_spec(bytes)->0)->0, f, args).1.store,
        ),
{
    let d = parse_spec(bytes)->0;
    lemma_decoded_within(bytes);
    lemma_instantiate(d);
    let inst = instantiate_spec(d)->0;
    lemma_valid_code_runs(inst, f, args);
}

/// A float that is an infinity or a NaN has no integer to be truncated
/// to: the truncation traps.
pub proof fn lemma_truncation_of_special_traps(op: u8, a: u64)
    requires
        truncates(op),
        parts(a, !(op == 0xA8 || op == 0xA9 || op == 0xAE || op == 0xAF)).special,
    ensures
        unary(op, a) == Num::Trap(Trap::InvalidConversion),
{
}

/// The quotient of the mantissas that a division rounds has at least 57
/// bits, more than a float holds: what the division leaves over can only
/// break a tie.
pub proof fn lemma_quotient_is_long(mx: int, my: int)
    requires
        0 < mx < pow2(53),
        0 < my < pow2(53),
    ensures
        bit_length((mx * pow2(110 - bit_length(mx))) / my) >= 57,
{
    let n = mx * pow2(110 - bit_length(mx));
    let q = n / my;
    lemma_bit_length(mx);
    if bit_length(mx) > 53 {
        lemma_pow2_monotonic(53, bit_length(mx) - 1);
    }
    lemma_pow2_sum(bit_length(mx) - 1, 110 - bit_length(mx));
    lemma_pow2_step(110 - bit_length(mx));
    assert(n >= pow2(109)) by (nonlinear_arith)
        requires
            n == mx * pow2(110 - bit_length(mx)),
            mx >= pow2(bit_length(mx) - 1),
            pow2(109) == pow2(bit_length(mx) - 1) * pow2(110 - bit_length(mx)),
            pow2(110 - bit_length(mx)) >= 1,
    ;
    lemma_pow2_sum(56, 53);
    lemma_pow2_step(56);
    assert(q >= pow2(56)) by (nonlinear_arith)
        requires
            q == n / my,
            n >= pow2(56) * pow2(53),
            0 < my < pow2(53),
            pow2(56) >= 1,
    ;
    lemma_bit_length(q);
    if bit_length(q) < 57 {
        lemma_pow2_monotonic(bit_length(q), 56);
    }
}

} // verus!

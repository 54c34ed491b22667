//! Where structured control goes: for every instruction that opens a
//! region, the position of the instruction that closes it, found once for
//! a whole body.
use vstd::prelude::*;
use crate::types::{Code, Instr};
use crate::semantics::scan;

verus! {

/// The targets of the instruction at one position: for a `block` or an
/// `if`, the position of its `end`; for an `if`, also the position of its
/// `else`, or of its `end` if it has none, and with an `else` the position
/// of the `end` as found from there. A position at or after the end of the
/// body stands for none.
#[derive(Clone, Copy, PartialEq, Eq, Structural, Debug)]
pub struct Jump {
    pub end: usize,
    pub alt: usize,
    pub else_end: usize,
}

/// The position that a target stands for in a body of `len` instructions.
pub open spec fn target(t: usize, len: int) -> Option<int> {
    if t < len {
        Some(t as int)
    } else {
        None
    }
}

/// The targets at `pc` are what the scan from there finds.
pub open spec fn jump_ok(instrs: Seq<Instr>, pc: int, j: Jump) -> bool {
    let n = instrs.len() as int;
    &&& (instrs[pc] is Block || instrs[pc] is If) ==> target(j.end, n) == scan(
        instrs,
        pc + 1,
        0,
        false,
    )
    &&& instrs[pc] is If ==> target(j.alt, n) == scan(instrs, pc + 1, 0, true)
    &&& (instrs[pc] is If && j.alt < n && instrs[j.alt as int] is Else) ==> target(j.else_end, n)
        == scan(instrs, j.alt + 1, 0, false)
}

/// The table holds the targets of every position of the body.
pub open spec fn jumps_ok(instrs: Seq<Instr>, jumps: Seq<Jump>) -> bool {
    &&& jumps.len() == instrs.len()
    &&& forall|pc: int| 0 <= pc < instrs.len() ==> jump_ok(instrs, pc, #[trigger] jumps[pc])
}

/// What is still owed for a region opened at `p` when the pass stands at
/// `q` with `d` regions opened since: the scans from `p` have come to `q`
/// without a result, and once the `else` is found the scan from there has.
pub open spec fn pending(instrs: Seq<Instr>, j: Jump, p: int, q: int, d: nat) -> bool {
    let n = instrs.len() as int;
    &&& j.end == usize::MAX
    &&& j.else_end == usize::MAX
    &&& scan(instrs, p + 1, 0, false) == scan(instrs, q, d, false)
    &&& if j.alt == usize::MAX {
        scan(instrs, p + 1, 0, true) == scan(instrs, q, d, true)
    } else {
        &&& j.alt < n
        &&& instrs[j.alt as int] is Else
        &&& target(j.alt, n) == scan(instrs, p + 1, 0, true)
        &&& scan(instrs, j.alt + 1, 0, false) == scan(instrs, q, d, false)
    }
}

/// The state of the pass at `q`: the open regions are on the stack, the
/// innermost last, each with what is owed for it; every position before
/// `q` that is not on the stack has its targets.
pub open spec fn passing(instrs: Seq<Instr>, jumps: Seq<Jump>, open: Seq<usize>, q: int) -> bool {
    &&& jumps.len() == instrs.len()
    &&& 0 <= q <= instrs.len()
    &&& forall|i: int| 0 <= i < open.len() ==> (#[trigger] open[i]) < q
    &&& forall|i: int, k: int| 0 <= i < k < open.len() ==> (#[trigger] open[i]) < (#[trigger] open[k])
    &&& forall|i: int|
        0 <= i < open.len() ==> pending(
            instrs,
            jumps[(#[trigger] open[i]) as int],
            open[i] as int,
            q,
            (open.len() - 1 - i) as nat,
        )
    &&& forall|pc: int|
        0 <= pc < q ==> open.contains(pc as usize) || jump_ok(instrs, pc, #[trigger] jumps[pc])
    &&& forall|pc: int| q <= pc < instrs.len() ==> #[trigger] jumps[pc] == no_jump()
}

/// The targets of a position that has none.
pub open spec fn no_jump() -> Jump {
    Jump { end: usize::MAX, alt: usize::MAX, else_end: usize::MAX }
}

/// One more instruction does not change what a scan comes to.
proof fn lemma_scan_step(instrs: Seq<Instr>, q: int, d: nat, or_else: bool)
    requires
        0 <= q < instrs.len(),
    ensures
        (instrs[q] is Block || instrs[q] is Loop || instrs[q] is If) ==> scan(instrs, q, d, or_else)
            == scan(instrs, q + 1, d + 1, or_else),
        instrs[q] is End && d > 0 ==> scan(instrs, q, d, or_else) == scan(
            instrs,
            q + 1,
            (d - 1) as nat,
            or_else,
        ),
        instrs[q] is End && d == 0 ==> scan(instrs, q, d, or_else) == Some(q),
        instrs[q] is Else && d == 0 && or_else ==> scan(instrs, q, d, or_else) == Some(q),
        instrs[q] is Else && !(d == 0 && or_else) ==> scan(instrs, q, d, or_else) == scan(
            instrs,
            q + 1,
            d,
            or_else,
        ),
        !(instrs[q] is Block || instrs[q] is Loop || instrs[q] is If || instrs[q] is End
            || instrs[q] is Else) ==> scan(instrs, q, d, or_else) == scan(instrs, q + 1, d, or_else),
{
}

/// When the pass is through, every position has its targets.
proof fn lemma_passed(instrs: Seq<Instr>, jumps: Seq<Jump>, open: Seq<usize>)
    requires
        passing(instrs, jumps, open, instrs.len() as int),
        instrs.len() <= usize::MAX,
    ensures
        jumps_ok(instrs, jumps),
{
    let n = instrs.len() as int;
    assert forall|pc: int| 0 <= pc < n implies jump_ok(instrs, pc, #[trigger] jumps[pc]) by {
        if open.contains(pc as usize) {
            let i = choose|i: int| 0 <= i < open.len() && open[i] == pc as usize;
            assert(pending(instrs, jumps[open[i] as int], open[i] as int, n, (open.len() - 1 - i) as nat));
        }
    }
}

/// Finds the targets of a body in one pass, with a stack of the regions
/// that are open.
#[verifier::rlimit(100)]
pub fn find_jumps(instrs: &Vec<Instr>) -> (jumps: Vec<Jump>)
    ensures
        jumps_ok(instrs@, jumps@),
{
    let n: usize = instrs.len();
    let none = Jump { end: usize::MAX, alt: usize::MAX, else_end: usize::MAX };
    let mut jumps: Vec<Jump> = Vec::new();
    let mut k: usize = 0;
    while k < n
        invariant
            k <= n,
            jumps.len() == k,
            none == no_jump(),
            forall|pc: int| 0 <= pc < k ==> #[trigger] jumps@[pc] == no_jump(),
        decreases n - k,
    {
        jumps.push(none);
        k += 1;
    }
    let mut open: Vec<usize> = Vec::new();
    let mut q: usize = 0;
    while q < n
        invariant
            n == instrs.len(),
            passing(instrs@, jumps@, open@, q as int),
        decreases n - q,
    {
        let ghost before = jumps@;
        let ghost stack = open@;
        let ins: Instr = instrs[q];
        proof {
            assert forall|d: nat| #[trigger] scans_on(instrs@, q as int, d) by {
                lemma_scan_step(instrs@, q as int, d, false);
                lemma_scan_step(instrs@, q as int, d, true);
            }
            lemma_scan_step(instrs@, q as int, 0, false);
            lemma_scan_step(instrs@, q as int, 0, true);
        }
        match ins {
            Instr::Block(_) | Instr::Loop(_) | Instr::If(_) => {
                open.push(q);
                proof {
                    assert forall|i: int| 0 <= i < open@.len() implies pending(
                        instrs@,
                        jumps@[(#[trigger] open@[i]) as int],
                        open@[i] as int,
                        q + 1,
                        (open@.len() - 1 - i) as nat,
                    ) by {
                        if i < stack.len() {
                            assert(open@[i] == stack[i]);
                            assert(scans_on(instrs@, q as int, (stack.len() - 1 - i) as nat));
                        }
                    }
                    assert forall|pc: int| 0 <= pc < q + 1 implies open@.contains(pc as usize)
                        || jump_ok(instrs@, pc, #[trigger] jumps@[pc]) by {
                        if pc == q {
                            assert(open@[stack.len() as int] == q);
                        } else if stack.contains(pc as usize) {
                            let i = choose|i: int| 0 <= i < stack.len() && stack[i] == pc as usize;
                            assert(open@[i] == pc as usize);
                        }
                    }
                }
            },
            Instr::Else => {
                let len: usize = open.len();
                if len > 0 {
                    let p: usize = open[len - 1];
                    let mut j: Jump = jumps[p];
                    if j.alt == usize::MAX {
                        j.alt = q;
                        jumps.set(p, j);
                    }
                }
                proof {
                    assert forall|i: int| 0 <= i < open@.len() implies pending(
                        instrs@,
                        jumps@[(#[trigger] open@[i]) as int],
                        open@[i] as int,
                        q + 1,
                        (open@.len() - 1 - i) as nat,
                    ) by {
                        assert(scans_on(instrs@, q as int, (stack.len() - 1 - i) as nat));
                        assert(pending(
                            instrs@,
                            before[stack[i] as int],
                            stack[i] as int,
                            q as int,
                            (stack.len() - 1 - i) as nat,
                        ));
                        if i < len - 1 {
                            assert(stack[i] < stack[len - 1]);
                        }
                    }
                    assert forall|pc: int| 0 <= pc < q + 1 implies open@.contains(pc as usize)
                        || jump_ok(instrs@, pc, #[trigger] jumps@[pc]) by {
                        if pc < q && !stack.contains(pc as usize) {
                            if len > 0 {
                                assert(stack[len - 1] != pc as usize);
                            }
                            assert(jumps@[pc] == before[pc]);
                        }
                    }
                }
            },
            Instr::End => {
                let len: usize = open.len();
                if len > 0 {
                    let p: usize = open[len - 1];
                    open.pop();
                    let mut j: Jump = jumps[p];
                    j.end = q;
                    if j.alt == usize::MAX {
                        j.alt = q;
                    } else {
                        j.else_end = q;
                    }
                    jumps.set(p, j);
                    proof {
                        assert(pending(instrs@, before[p as int], p as int, q as int, 0));
                        assert(jump_ok(instrs@, p as int, jumps@[p as int]));
                    }
                }
                proof {
                    assert forall|i: int| 0 <= i < open@.len() implies pending(
                        instrs@,
                        jumps@[(#[trigger] open@[i]) as int],
                        open@[i] as int,
                        q + 1,
                        (open@.len() - 1 - i) as nat,
                    ) by {
                        assert(open@[i] == stack[i]);
                        assert(scans_on(instrs@, q as int, (stack.len() - 1 - i) as nat));
                        assert(pending(
                            instrs@,
                            before[stack[i] as int],
                            stack[i] as int,
                            q as int,
                            (stack.len() - 1 - i) as nat,
                        ));
                        assert(stack[i] < stack[len - 1]);
                    }
                    assert forall|pc: int| 0 <= pc < q + 1 implies open@.contains(pc as usize)
                        || jump_ok(instrs@, pc, #[trigger] jumps@[pc]) by {
                        if pc < q {
                            if stack.contains(pc as usize) {
                                let i = choose|i: int| 0 <= i < stack.len() && stack[i] == pc as usize;
                                if i < len - 1 {
                                    assert(open@[i] == pc as usize);
                                }
                            } else {
                                if len > 0 {
                                    assert(stack[len - 1] != pc as usize);
                                }
                                assert(jumps@[pc] == before[pc]);
                            }
                        }
                    }
                }
            },
            _ => {
                proof {
                    assert forall|i: int| 0 <= i < open@.len() implies pending(
                        instrs@,
                        jumps@[(#[trigger] open@[i]) as int],
                        open@[i] as int,
                        q + 1,
                        (open@.len() - 1 - i) as nat,
                    ) by {
                        assert(scans_on(instrs@, q as int, (stack.len() - 1 - i) as nat));
                    }
                }
            },
        }
        q += 1;
    }
    proof {
        lemma_passed(instrs@, jumps@, open@);
    }
    jumps
}

/// How the scans at `q` with `d` regions open go on at the next position.
pub open spec fn scans_on(instrs: Seq<Instr>, q: int, d: nat) -> bool {
    &&& (instrs[q] is Block || instrs[q] is Loop || instrs[q] is If) ==> scan(instrs, q, d, false)
        == scan(instrs, q + 1, d + 1, false) && scan(instrs, q, d, true) == scan(
        instrs,
        q + 1,
        d + 1,
        true,
    )
    &&& instrs[q] is End && d > 0 ==> scan(instrs, q, d, false) == scan(
        instrs,
        q + 1,
        (d - 1) as nat,
        false,
    ) && scan(instrs, q, d, true) == scan(instrs, q + 1, (d - 1) as nat, true)
    &&& instrs[q] is End && d == 0 ==> scan(instrs, q, d, false) == Some(q) && scan(
        instrs,
        q,
        d,
        true,
    ) == Some(q)
    &&& instrs[q] is Else ==> scan(instrs, q, d, false) == scan(instrs, q + 1, d, false)
    &&& instrs[q] is Else && d == 0 ==> scan(instrs, q, d, true) == Some(q)
    &&& instrs[q] is Else && d > 0 ==> scan(instrs, q, d, true) == scan(instrs, q + 1, d, true)
    &&& !(instrs[q] is Block || instrs[q] is Loop || instrs[q] is If || instrs[q] is End
        || instrs[q] is Else) ==> scan(instrs, q, d, false) == scan(instrs, q + 1, d, false)
        && scan(instrs, q, d, true) == scan(instrs, q + 1, d, true)
}

/// Every body has its table.
pub open spec fn tables_ok(codes: Seq<Code>, tables: Seq<Vec<Jump>>) -> bool {
    &&& tables.len() == codes.len()
    &&& forall|i: int| 0 <= i < codes.len() ==> jumps_ok(codes[i].instrs@, (#[trigger] tables[i])@)
}

/// Finds the targets of all bodies.
pub fn find_all_jumps(codes: &Vec<Code>) -> (tables: Vec<Vec<Jump>>)
    ensures
        tables_ok(codes@, tables@),
{
    let mut tables: Vec<Vec<Jump>> = Vec::new();
    let mut i: usize = 0;
    while i < codes.len()
        invariant
            i <= codes.len(),
            tables.len() == i,
            forall|k: int| 0 <= k < i ==> jumps_ok(codes@[k].instrs@, (#[trigger] tables@[k])@),
        decreases codes.len() - i,
    {
        tables.push(find_jumps(&codes[i].instrs));
        i += 1;
    }
    tables
}

} // verus!

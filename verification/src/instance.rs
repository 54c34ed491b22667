//! Modules and instances: parsing, instantiation and calls.
use vstd::prelude::*;
use crate::decode::decode;
use crate::format::decode_spec;
use crate::interp::{Machine, Store, activate, do_run};
use crate::jumps::{Jump, find_all_jumps, tables_ok};
use crate::semantics::{
    FrameView, InstanceView, MachineView, PAGE_LIMIT, PAGE_SIZE, STEP_BUDGET, Status, Step,
    StoreView, TABLE_LIMIT, activation, callee_type, run, zero_bytes,
};
use crate::soundness::{
    lemma_call_within, lemma_initial_store, lemma_start, lemma_valid_code_runs, sound_module,
    store_ok,
};
use crate::types::{ConstExpr, Data, Draft, DraftView, Element, ExternKind};
use crate::typing::{ValidationError, check_spec};
use crate::validate::check;
use crate::value::{ExecutionResult, Trap, Value};

verus! {

/// The valid module that a byte sequence encodes, if it encodes one.
pub open spec fn parse_spec(bytes: Seq<u8>) -> Option<DraftView> {
    match decode_spec(bytes) {
        Ok(d) => if check_spec(d) is Ok {
            Some(d)
        } else {
            None
        },
        Err(_) => None,
    }
}

/// Whether a byte sequence encodes a valid module.
pub open spec fn validate_spec(bytes: Seq<u8>) -> bool {
    decode_spec(bytes) matches Ok(d) && check_spec(d) is Ok
}

/// A validated module. It is never checked again.
pub struct Module {
    draft: Draft,
    jumps: Vec<Vec<Jump>>,
}

impl View for Module {
    type V = DraftView;

    closed spec fn view(&self) -> DraftView {
        self.draft@
    }
}

impl Module {
    /// A module has passed validation, and holds the targets of structured
    /// control for every body.
    #[verifier::type_invariant]
    spec fn valid(self) -> bool {
        check_spec(self.draft@) is Ok && tables_ok(self.draft.codes@, self.jumps@)
    }
}

/// The bodies of a draft are short enough to be held.
proof fn lemma_bounded(d: &Draft)
    ensures
        forall|i: int| 0 <= i < d@.codes.len() ==> (#[trigger] d@.codes[i]).instrs.len() <= usize::MAX,
{
    assert forall|i: int| 0 <= i < d@.codes.len() implies (#[trigger] d@.codes[i]).instrs.len()
        <= usize::MAX by {
        assert(d@.codes[i] == d.codes@[i]@);
        assert(d.codes@[i].instrs@.len() == d.codes@[i].instrs.len());
    }
}

/// Checks a draft and makes it a module.
pub fn validate_draft(d: Draft) -> (r: Result<Module, ValidationError>)
    ensures
        match r {
            Ok(m) => check_spec(d@) is Ok && m@ == d@,
            Err(e) => check_spec(d@) == Err::<(), _>(e),
        },
{
    match check(&d) {
        Ok(_) => {
            let jumps = find_all_jumps(&d.codes);
            Ok(Module { draft: d, jumps })
        },
        Err(e) => Err(e),
    }
}

/// Whether the bytes are a valid module.
pub fn validate(input: &[u8]) -> (r: bool)
    ensures
        r == validate_spec(input@),
{
    match decode(input) {
        Ok(d) => check(&d).is_ok(),
        Err(_) => false,
    }
}

/// Decodes and validates a module.
pub fn parse(input: &[u8]) -> (r: Option<Module>)
    ensures
        match r {
            Some(m) => parse_spec(input@) == Some(m@),
            None => parse_spec(input@) is None,
        },
{
    match decode(input) {
        Ok(d) => match validate_draft(d) {
            Ok(m) => Some(m),
            Err(_) => None,
        },
        Err(_) => None,
    }
}

/// The bits of a constant. A constant expression that reads a global has
/// none, as an instance has no imports to read.
pub open spec fn const_bits(e: ConstExpr) -> Option<u64> {
    match e {
        ConstExpr::I32(v) => Some((v as u32) as u64),
        ConstExpr::I64(v) => Some(v as u64),
        ConstExpr::F32(b) => Some(b as u64),
        ConstExpr::F64(b) => Some(b),
        ConstExpr::GlobalGet(_) => None,
    }
}

/// The initial values of the globals from `i` on, appended to `acc`.
pub open spec fn initial_globals(d: DraftView, i: int, acc: Seq<u64>) -> Option<Seq<u64>>
    decreases d.globals.len() - i,
{
    if i < 0 || i >= d.globals.len() {
        Some(acc)
    } else {
        match const_bits(d.globals[i].init) {
            Some(v) => initial_globals(d, i + 1, acc.push(v)),
            None => None,
        }
    }
}

/// The limit to which a memory may grow.
pub open spec fn growth_limit(max: Option<u32>) -> u32 {
    match max {
        Some(m) => if m < PAGE_LIMIT {
            m
        } else {
            PAGE_LIMIT
        },
        None => PAGE_LIMIT,
    }
}

/// The table after the function references of the element segments from
/// `i` on are written. A segment that does not fit fails.
pub open spec fn place_elements(d: DraftView, i: int, table: Seq<Option<u32>>) -> Option<
    Seq<Option<u32>>,
>
    decreases d.elems.len() - i,
{
    if i < 0 || i >= d.elems.len() {
        Some(table)
    } else {
        match const_bits(d.elems[i].offset) {
            Some(bits) => {
                let at = bits as u32 as int;
                let init = d.elems[i].init;
                if at + init.len() > table.len() {
                    None
                } else {
                    place_elements(
                        d,
                        i + 1,
                        Seq::new(
                            table.len(),
                            |k: int|
                                if at <= k < at + init.len() {
                                    Some(init[k - at])
                                } else {
                                    table[k]
                                },
                        ),
                    )
                }
            },
            None => None,
        }
    }
}

/// The memory after the bytes of the data segments from `i` on are
/// written. A segment that does not fit fails.
pub open spec fn place_datas(d: DraftView, i: int, memory: Seq<u8>) -> Option<Seq<u8>>
    decreases d.datas.len() - i,
{
    if i < 0 || i >= d.datas.len() {
        Some(memory)
    } else {
        match const_bits(d.datas[i].offset) {
            Some(bits) => {
                let at = bits as u32 as int;
                let init = d.datas[i].init;
                if at + init.len() > memory.len() {
                    None
                } else {
                    place_datas(
                        d,
                        i + 1,
                        Seq::new(
                            memory.len(),
                            |k: int|
                                if at <= k < at + init.len() {
                                    init[k - at]
                                } else {
                                    memory[k]
                                },
                        ),
                    )
                }
            },
            None => None,
        }
    }
}

/// The store of a fresh instance, before the start function runs: memory
/// of the declared minimum filled with zeros, a table of the declared
/// minimum filled with null, the globals at their initial values, and the
/// segments written. A module with imports has none.
pub open spec fn initial_store(d: DraftView) -> Option<StoreView> {
    if d.imports.len() > 0 {
        None
    } else if d.mems.len() > 0 && d.mems[0].min > PAGE_LIMIT {
        None
    } else if d.tables.len() > 0 && d.tables[0].min > TABLE_LIMIT {
        None
    } else {
        let memory = if d.mems.len() > 0 {
            zero_bytes(d.mems[0].min * PAGE_SIZE)
        } else {
            Seq::empty()
        };
        let max_pages = if d.mems.len() > 0 {
            growth_limit(d.mems[0].max)
        } else {
            0
        };
        let table = if d.tables.len() > 0 {
            Seq::new(d.tables[0].min as nat, |k: int| None::<u32>)
        } else {
            Seq::empty()
        };
        match initial_globals(d, 0, Seq::empty()) {
            Some(globals) => match place_elements(d, 0, table) {
                Some(table2) => match place_datas(d, 0, memory) {
                    Some(memory2) => Some(
                        StoreView { memory: memory2, max_pages, table: table2, globals },
                    ),
                    None => None,
                },
                None => None,
            },
            None => None,
        }
    }
}

/// The bits of the arguments.
pub open spec fn arg_bits(args: Seq<Value>) -> Seq<u64> {
    Seq::new(args.len(), |i: int| args[i].bits)
}

/// How a call ended.
pub open spec fn outcome(st: Status) -> ExecutionResult {
    match st {
        Status::Done(v) => ExecutionResult::returned(v),
        Status::Trapped(t) => ExecutionResult::trapped_with(t),
        Status::Running => ExecutionResult::trapped_with(Trap::StepLimit),
    }
}

/// The machine at the start of a call of the function `f`.
pub open spec fn start_of(inst: InstanceView, f: u32, args: Seq<u64>) -> Option<MachineView> {
    match activation(inst.module, f as int, args) {
        Some(frame) => Some(MachineView { frame, callers: Seq::empty() }),
        None => None,
    }
}

/// The call of the function `f`, run until it ends or traps.
pub open spec fn call_spec(inst: InstanceView, f: u32, args: Seq<u64>) -> Step {
    call_within(inst, f, args, STEP_BUDGET as nat)
}

/// The call of the function `f`, run for at most `budget` steps.
pub open spec fn call_within(inst: InstanceView, f: u32, args: Seq<u64>, budget: nat) -> Step {
    match start_of(inst, f, args) {
        Some(m) => run(inst, m, budget),
        None => Step {
            inst,
            mach: MachineView {
                frame: FrameView {
                    func: 0,
                    pc: 0,
                    locals: Seq::empty(),
                    stack: Seq::empty(),
                    labels: Seq::empty(),
                    arity: 0,
                },
                callers: Seq::empty(),
            },
            status: Status::Trapped(Trap::InvalidCode),
        },
    }
}

/// The result of a call and the instance after it. What the call did to
/// the memory and the globals before a trap stays done.
pub open spec fn execute_spec(inst: InstanceView, f: u32, args: Seq<u64>) -> (
    ExecutionResult,
    InstanceView,
) {
    let s = call_spec(inst, f, args);
    (outcome(s.status), InstanceView { module: inst.module, store: s.inst.store })
}

/// The instance of a module: its initial store, after the start function
/// has run if there is one. A trap in the start function fails.
pub open spec fn instantiate_spec(d: DraftView) -> Option<InstanceView> {
    match initial_store(d) {
        Some(store) => {
            let inst = InstanceView { module: d, store };
            match d.start {
                Some(f) => {
                    let (r, after) = execute_spec(inst, f, Seq::empty());
                    if r.trapped {
                        None
                    } else {
                        Some(after)
                    }
                },
                None => Some(inst),
            }
        },
        None => None,
    }
}

/// The function that is exported under `name`, looked for among the
/// exports from `i` on. A valid module uses no name twice.
pub open spec fn exported_from(d: DraftView, name: Seq<u8>, i: int) -> Option<u32>
    decreases d.exports.len() - i,
{
    if i < 0 || i >= d.exports.len() {
        None
    } else if d.exports[i].name == name {
        if d.exports[i].kind is Func {
            Some(d.exports[i].index)
        } else {
            None
        }
    } else {
        exported_from(d, name, i + 1)
    }
}

/// Whether the function `f` exists and takes `count` arguments.
pub open spec fn accepts_spec(d: DraftView, f: u32, count: nat) -> bool {
    callee_type(d, f as int) matches Some(ft) && ft.params.len() == count
}

/// The runtime state of one module.
pub struct Instance {
    module: Module,
    store: Store,
}

impl View for Instance {
    type V = InstanceView;

    closed spec fn view(&self) -> InstanceView {
        InstanceView { module: self.module@, store: self.store@ }
    }
}

impl Instance {
    /// The module of an instance is valid and imports nothing, and the
    /// store fits it: it holds the module's globals, and its table holds
    /// functions of the module only.
    pub closed spec fn wf(&self) -> bool {
        sound_module(self.module.draft@) && store_ok(self.module.draft@, self.store@)
    }
}

fn bits_of(args: &[Value]) -> (r: Vec<u64>)
    ensures
        r@ == arg_bits(args@),
{
    let mut out: Vec<u64> = Vec::new();
    let mut i: usize = 0;
    while i < args.len()
        invariant
            i <= args.len(),
            out@ == arg_bits(args@.subrange(0, i as int)),
        decreases args.len() - i,
    {
        out.push(args[i].bits);
        i += 1;
        assert(out@ =~= arg_bits(args@.subrange(0, i as int)));
    }
    assert(args@.subrange(0, args@.len() as int) =~= args@);
    out
}

/// Runs a call of the function `f` for at most `budget` steps.
fn run_call(
    d: &Draft,
    tables: &Vec<Vec<Jump>>,
    store: &mut Store,
    f: u32,
    args: Vec<u64>,
    budget: u64,
) -> (r: ExecutionResult)
    requires
        tables_ok(d.codes@, tables@),
    ensures
        r == outcome(
            call_within(InstanceView { module: d@, store: old(store)@ }, f, args@, budget as nat).status,
        ),
        final(store)@ == call_within(
            InstanceView { module: d@, store: old(store)@ },
            f,
            args@,
            budget as nat,
        ).inst.store,
{
    match activate(d, f as usize, args) {
        Some(frame) => {
            let m = Machine { frame, callers: Vec::new() };
            assert(m@ =~= start_of(InstanceView { module: d@, store: store@ }, f, args@)->0);
            let (_, st) = do_run(d, tables, store, m, budget);
            match st {
                Status::Done(v) => ExecutionResult::from_return(v),
                Status::Trapped(t) => ExecutionResult::from_trap(t),
                Status::Running => ExecutionResult::from_trap(Trap::StepLimit),
            }
        },
        None => ExecutionResult::from_trap(Trap::InvalidCode),
    }
}

fn same_name(a: &Vec<u8>, b: &[u8]) -> (r: bool)
    ensures
        r == (a@ == b@),
{
    if a.len() != b.len() {
        return false;
    }
    let mut i: usize = 0;
    while i < a.len()
        invariant
            i <= a.len(),
            a.len() == b.len(),
            forall|j: int| 0 <= j < i ==> a@[j] == b@[j],
        decreases a.len() - i,
    {
        if a[i] != b[i] {
            return false;
        }
        i += 1;
    }
    assert(a@ =~= b@);
    true
}

impl Module {
    /// The index of the function that is exported under the name `name`,
    /// given as bytes.
    pub fn exported_function(&self, name: &[u8]) -> (r: Option<u32>)
        ensures
            r == exported_from(self@, name@, 0),
    {
        let d = &self.draft;
        let mut i: usize = 0;
        while i < d.exports.len()
            invariant
                i <= d.exports.len(),
                d@ == self@,
                exported_from(d@, name@, 0) == exported_from(d@, name@, i as int),
            decreases d.exports.len() - i,
        {
            assert(d@.exports[i as int] == d.exports@[i as int]@);
            if same_name(&d.exports[i].name, name) {
                return match d.exports[i].kind {
                    ExternKind::Func => Some(d.exports[i].index),
                    _ => None,
                };
            }
            i += 1;
        }
        None
    }

    /// The number of functions.
    pub fn function_count(&self) -> (r: usize)
        ensures
            r == self@.funcs.len(),
    {
        self.draft.funcs.len()
    }

    /// Whether the function `f` exists and takes `count` arguments.
    pub fn accepts(&self, f: u32, count: usize) -> (r: bool)
        ensures
            r == accepts_spec(self@, f, count as nat),
    {
        let d = &self.draft;
        let fi: usize = f as usize;
        fi < d.funcs.len() && fi < d.codes.len() && (d.funcs[fi] as usize) < d.types.len()
            && d.types[d.funcs[fi] as usize].params.len() == count
    }
}

impl Instance {
    /// The module of the instance.
    pub fn module(&self) -> (m: &Module)
        ensures
            m@ == self@.module,
    {
        &self.module
    }

    /// The size of the memory in bytes.
    pub fn memory_size(&self) -> (r: usize)
        ensures
            r == self@.store.memory.len(),
    {
        self.store.memory.len()
    }

    /// As `execute`, but the call traps when it has taken `budget` steps
    /// without coming to an end.
    pub fn execute_within(&mut self, func_idx: u32, args: &[Value], budget: u64) -> (r:
        ExecutionResult)
        requires
            old(self).wf(),
            accepts_spec(old(self)@.module, func_idx, args@.len()),
        ensures
            final(self).wf(),
            r == outcome(call_within(old(self)@, func_idx, arg_bits(args@), budget as nat).status),
            final(self)@ == (InstanceView {
                module: old(self)@.module,
                store: call_within(old(self)@, func_idx, arg_bits(args@), budget as nat).inst.store,
            }),
            r.wf(),
            r.trap != Some(Trap::InvalidCode),
    {
        let bits = bits_of(args);
        proof {
            use_type_invariant(&self.module);
            lemma_call_within(self@, func_idx, bits@, budget as nat);
        }
        run_call(&self.module.draft, &self.module.jumps, &mut self.store, func_idx, bits, budget)
    }

    /// Calls the function `func_idx` with the arguments `args`, which must
    /// be as many as the function has parameters.
    pub fn execute(&mut self, func_idx: u32, args: &[Value]) -> (r: ExecutionResult)
        requires
            old(self).wf(),
            accepts_spec(old(self)@.module, func_idx, args@.len()),
        ensures
            final(self).wf(),
            r == execute_spec(old(self)@, func_idx, arg_bits(args@)).0,
            final(self)@ == execute_spec(old(self)@, func_idx, arg_bits(args@)).1,
            r.wf(),
            r.trap != Some(Trap::InvalidCode),
    {
        self.execute_within(func_idx, args, STEP_BUDGET)
    }
}

fn bits_of_const(e: ConstExpr) -> (r: Option<u64>)
    ensures
        r == const_bits(e),
{
    match e {
        ConstExpr::I32(v) => Some((v as u32) as u64),
        ConstExpr::I64(v) => Some(v as u64),
        ConstExpr::F32(b) => Some(b as u64),
        ConstExpr::F64(b) => Some(b),
        ConstExpr::GlobalGet(_) => None,
    }
}

fn limit_of(max: Option<u32>) -> (r: u32)
    ensures
        r == growth_limit(max),
{
    match max {
        Some(m) => if m < PAGE_LIMIT {
            m
        } else {
            PAGE_LIMIT
        },
        None => PAGE_LIMIT,
    }
}

fn build_globals(d: &Draft) -> (r: Option<Vec<u64>>)
    ensures
        match r {
            Some(v) => initial_globals(d@, 0, Seq::empty()) == Some(v@),
            None => initial_globals(d@, 0, Seq::empty()) is None,
        },
{
    let mut out: Vec<u64> = Vec::new();
    let mut i: usize = 0;
    while i < d.globals.len()
        invariant
            i <= d.globals.len(),
            initial_globals(d@, 0, Seq::empty()) == initial_globals(d@, i as int, out@),
        decreases d.globals.len() - i,
    {
        match bits_of_const(d.globals[i].init) {
            Some(v) => {
                out.push(v);
            },
            None => {
                return None;
            },
        }
        i += 1;
    }
    Some(out)
}

#[verifier::rlimit(50)]

fn write_elements(d: &Draft, table: Vec<Option<u32>>) -> (r: Option<Vec<Option<u32>>>)
    ensures
        match r {
            Some(t) => place_elements(d@, 0, table@) == Some(t@),
            None => place_elements(d@, 0, table@) is None,
        },
{
    let mut cur = table;
    let mut i: usize = 0;
    while i < d.elems.len()
        invariant
            i <= d.elems.len(),
            place_elements(d@, 0, table@) == place_elements(d@, i as int, cur@),
        decreases d.elems.len() - i,
    {
        let e: &Element = &d.elems[i];
        let at: usize = match bits_of_const(e.offset) {
            Some(bits) => (bits as u32) as usize,
            None => {
                return None;
            },
        };
        if at > cur.len() || e.init.len() > cur.len() - at {
            return None;
        }
        let ghost before = cur@;
        let mut k: usize = 0;
        while k < e.init.len()
            invariant
                k <= e.init.len(),
                at + e.init.len() <= cur.len(),
                cur.len() == before.len(),
                cur@ == Seq::new(
                    before.len(),
                    |j: int|
                        if at <= j < at + k {
                            Some(e.init@[j - at])
                        } else {
                            before[j]
                        },
                ),
            decreases e.init.len() - k,
        {
            cur.set(at + k, Some(e.init[k]));
            k += 1;
        }
        i += 1;
    }
    Some(cur)
}

#[verifier::rlimit(50)]

fn write_datas(d: &Draft, memory: Vec<u8>) -> (r: Option<Vec<u8>>)
    ensures
        match r {
            Some(m) => place_datas(d@, 0, memory@) == Some(m@),
            None => place_datas(d@, 0, memory@) is None,
        },
{
    let mut cur = memory;
    let mut i: usize = 0;
    while i < d.datas.len()
        invariant
            i <= d.datas.len(),
            place_datas(d@, 0, memory@) == place_datas(d@, i as int, cur@),
        decreases d.datas.len() - i,
    {
        let e: &Data = &d.datas[i];
        let at: usize = match bits_of_const(e.offset) {
            Some(bits) => (bits as u32) as usize,
            None => {
                return None;
            },
        };
        if at > cur.len() || e.init.len() > cur.len() - at {
            return None;
        }
        let ghost before = cur@;
        let mut k: usize = 0;
        while k < e.init.len()
            invariant
                k <= e.init.len(),
                at + e.init.len() <= cur.len(),
                cur.len() == before.len(),
                cur@ == Seq::new(
                    before.len(),
                    |j: int|
                        if at <= j < at + k {
                            e.init@[j - at]
                        } else {
                            before[j]
                        },
                ),
            decreases e.init.len() - k,
        {
            cur.set(at + k, e.init[k]);
            k += 1;
        }
        i += 1;
    }
    Some(cur)
}

fn null_table(n: u32) -> (r: Vec<Option<u32>>)
    ensures
        r@ == Seq::new(n as nat, |k: int| None::<u32>),
{
    let mut out: Vec<Option<u32>> = Vec::new();
    let mut i: u32 = 0;
    while i < n
        invariant
            i <= n,
            out@ == Seq::new(i as nat, |k: int| None::<u32>),
        decreases n - i,
    {
        out.push(None);
        i += 1;
    }
    out
}

/// Builds the store of a fresh instance.
#[verifier::rlimit(50)]
fn build_store(d: &Draft) -> (r: Option<Store>)
    ensures
        match r {
            Some(s) => initial_store(d@) == Some(s@),
            None => initial_store(d@) is None,
        },
{
    if d.imports.len() > 0 {
        return None;
    }
    if d.mems.len() > 0 && d.mems[0].min > PAGE_LIMIT {
        return None;
    }
    if d.tables.len() > 0 && d.tables[0].min > TABLE_LIMIT {
        return None;
    }
    let memory: Vec<u8> = if d.mems.len() > 0 {
        let size: usize = d.mems[0].min as usize * PAGE_SIZE;
        let v = vec![0u8; size];
        assert(v@ =~= zero_bytes(d@.mems[0].min * PAGE_SIZE));
        v
    } else {
        Vec::new()
    };
    let max_pages: u32 = if d.mems.len() > 0 {
        limit_of(d.mems[0].max)
    } else {
        0
    };
    let table: Vec<Option<u32>> = if d.tables.len() > 0 {
        null_table(d.tables[0].min)
    } else {
        Vec::new()
    };
    let globals = match build_globals(d) {
        Some(g) => g,
        None => {
            return None;
        },
    };
    let table = match write_elements(d, table) {
        Some(t) => t,
        None => {
            return None;
        },
    };
    let memory = match write_datas(d, memory) {
        Some(m) => m,
        None => {
            return None;
        },
    };
    Some(Store { memory, max_pages, table, globals })
}

impl Module {
    /// Creates an instance: allocates its memory, table and globals, writes
    /// the segments, and runs the start function if there is one. On
    /// failure nothing is left.
    #[verifier::rlimit(50)]
    pub fn instantiate(self) -> (r: Option<Instance>)
        ensures
            match r {
                Some(inst) => instantiate_spec(self@) == Some(inst@) && inst.wf(),
                None => instantiate_spec(self@) is None,
            },
    {
        let store = match build_store(&self.draft) {
            Some(s) => s,
            None => {
                return None;
            },
        };
        proof {
            use_type_invariant(&self);
            lemma_bounded(&self.draft);
            lemma_initial_store(self.draft@);
        }
        let mut inst = Instance { module: self, store };
        match inst.module.draft.start {
            Some(f) => {
                proof {
                    lemma_start(inst@.module);
                    lemma_valid_code_runs(inst@, f, Seq::empty());
                }
                let r = run_call(
                    &inst.module.draft,
                    &inst.module.jumps,
                    &mut inst.store,
                    f,
                    Vec::new(),
                    STEP_BUDGET,
                );
                if r.trapped {
                    None
                } else {
                    Some(inst)
                }
            },
            None => Some(inst),
        }
    }
}

} // verus!

//! Runtime values, traps and the result of a call.
use vstd::prelude::*;

verus! {

/// A value of one of the four numeric types, held as its bits. A 32-bit
/// value is the low half; which type the bits stand for is given by the
/// signature of the function that takes or returns the value.
#[derive(Clone, Copy, PartialEq, Eq, Structural, Debug)]
pub struct Value {
    pub bits: u64,
}

impl Value {
    /// The value as a signed 32-bit integer: its low 32 bits.
    pub fn as_i32(&self) -> (r: i32)
        ensures
            r == self.bits as i32,
    {
        self.bits as i32
    }

    /// The value as an unsigned 32-bit integer: its low 32 bits.
    pub fn as_u32(&self) -> (r: u32)
        ensures
            r == self.bits as u32,
    {
        self.bits as u32
    }

    /// The value as a signed 64-bit integer.
    pub fn as_i64(&self) -> (r: i64)
        ensures
            r == self.bits as i64,
    {
        self.bits as i64
    }

    /// The value as an unsigned 64-bit integer.
    pub fn as_u64(&self) -> (r: u64)
        ensures
            r == self.bits,
    {
        self.bits
    }
}

impl From<i32> for Value {
    fn from(v: i32) -> (r: Value) {
        Value { bits: v as u64 }
    }
}

impl vstd::std_specs::convert::FromSpecImpl<i32> for Value {
    open spec fn obeys_from_spec() -> bool {
        true
    }

    open spec fn from_spec(v: i32) -> Value {
        Value { bits: v as u64 }
    }
}

impl From<u32> for Value {
    fn from(v: u32) -> (r: Value) {
        Value { bits: v as u64 }
    }
}

impl vstd::std_specs::convert::FromSpecImpl<u32> for Value {
    open spec fn obeys_from_spec() -> bool {
        true
    }

    open spec fn from_spec(v: u32) -> Value {
        Value { bits: v as u64 }
    }
}

impl From<i64> for Value {
    fn from(v: i64) -> (r: Value) {
        Value { bits: v as u64 }
    }
}

impl vstd::std_specs::convert::FromSpecImpl<i64> for Value {
    open spec fn obeys_from_spec() -> bool {
        true
    }

    open spec fn from_spec(v: i64) -> Value {
        Value { bits: v as u64 }
    }
}

impl From<u64> for Value {
    fn from(v: u64) -> (r: Value) {
        Value { bits: v }
    }
}

impl vstd::std_specs::convert::FromSpecImpl<u64> for Value {
    open spec fn obeys_from_spec() -> bool {
        true
    }

    open spec fn from_spec(v: u64) -> Value {
        Value { bits: v }
    }
}

/// A runtime fault. It ends the whole call.
#[derive(Clone, Copy, PartialEq, Eq, Structural, Debug)]
pub enum Trap {
    /// An `unreachable` instruction was executed.
    Unreachable,
    /// An integer division or remainder by zero.
    DivisionByZero,
    /// The signed division of the smallest integer by -1.
    IntegerOverflow,
    /// A load or store outside the memory.
    MemoryOutOfBounds,
    /// An indirect call with an index outside the table.
    UndefinedElement,
    /// An indirect call through a table slot that holds no function.
    NullFunctionReference,
    /// An indirect call to a function of another signature.
    SignatureMismatch,
    /// The calls are nested too deep.
    CallStackExhausted,
    /// A float that has no integer to be truncated to.
    InvalidConversion,
    /// The call ran for more steps than one call is given.
    StepLimit,
    /// The code asks for something the validation rules exclude. No call
    /// on an instance ends so.
    InvalidCode,
}

impl Trap {
    /// What went wrong, in words.
    pub open spec fn message_spec(self) -> Seq<char> {
        match self {
            Trap::Unreachable => "unreachable"@,
            Trap::DivisionByZero => "integer divide by zero"@,
            Trap::IntegerOverflow => "integer overflow"@,
            Trap::MemoryOutOfBounds => "out of bounds memory access"@,
            Trap::UndefinedElement => "undefined element"@,
            Trap::NullFunctionReference => "null function reference"@,
            Trap::SignatureMismatch => "indirect call type mismatch"@,
            Trap::CallStackExhausted => "call stack exhausted"@,
            Trap::InvalidConversion => "invalid conversion to integer"@,
            Trap::StepLimit => "step limit reached"@,
            Trap::InvalidCode => "invalid code"@,
        }
    }

    /// What went wrong, in words.
    pub fn message(&self) -> (r: &'static str)
        ensures
            r@ == self.message_spec(),
    {
        match self {
            Trap::Unreachable => "unreachable",
            Trap::DivisionByZero => "integer divide by zero",
            Trap::IntegerOverflow => "integer overflow",
            Trap::MemoryOutOfBounds => "out of bounds memory access",
            Trap::UndefinedElement => "undefined element",
            Trap::NullFunctionReference => "null function reference",
            Trap::SignatureMismatch => "indirect call type mismatch",
            Trap::CallStackExhausted => "call stack exhausted",
            Trap::InvalidConversion => "invalid conversion to integer",
            Trap::StepLimit => "step limit reached",
            Trap::InvalidCode => "invalid code",
        }
    }
}

/// How a call ended: with a trap, with a value, or with neither.
#[derive(Clone, Copy, PartialEq, Eq, Structural, Debug)]
pub struct ExecutionResult {
    pub trapped: bool,
    pub has_value: bool,
    pub value: Value,
    pub trap: Option<Trap>,
}

impl ExecutionResult {
    /// Exactly one of the three outcomes; a trap carries no value.
    pub open spec fn wf(self) -> bool {
        &&& self.trapped <==> self.trap is Some
        &&& self.trapped ==> !self.has_value
        &&& !self.has_value ==> self.value.bits == 0
    }

    /// The result of a call that ended with the trap `t`.
    pub open spec fn trapped_with(t: Trap) -> ExecutionResult {
        ExecutionResult { trapped: true, has_value: false, value: Value { bits: 0 }, trap: Some(t) }
    }

    /// The result of a call that returned `v`, or nothing.
    pub open spec fn returned(v: Option<u64>) -> ExecutionResult {
        match v {
            Some(bits) => ExecutionResult {
                trapped: false,
                has_value: true,
                value: Value { bits },
                trap: None,
            },
            None => ExecutionResult {
                trapped: false,
                has_value: false,
                value: Value { bits: 0 },
                trap: None,
            },
        }
    }

    /// Makes the result of a call that ended with a trap.
    pub fn from_trap(t: Trap) -> (r: ExecutionResult)
        ensures
            r == Self::trapped_with(t),
    {
        ExecutionResult { trapped: true, has_value: false, value: Value { bits: 0 }, trap: Some(t) }
    }

    /// Makes the result of a call that returned.
    pub fn from_return(v: Option<u64>) -> (r: ExecutionResult)
        ensures
            r == Self::returned(v),
    {
        match v {
            Some(bits) => ExecutionResult {
                trapped: false,
                has_value: true,
                value: Value { bits },
                trap: None,
            },
            None => ExecutionResult {
                trapped: false,
                has_value: false,
                value: Value { bits: 0 },
                trap: None,
            },
        }
    }
}

} // verus!

//! A WebAssembly execution engine: decoding and validation of binary modules,
//! instantiation, and a stack-based interpreter with precise trap semantics.
//!
//! Bytes become a [`Module`] by [`parse`], which decodes them and checks the
//! result against the validation rules. A module becomes an [`Instance`] by
//! [`Module::instantiate`], and [`Instance::execute`] calls a function of it.
//!
//! Each step is stated as a function on sequences and mathematical integers
//! and implemented on vectors and machine integers:
//!
//! - `leb128`, `format`, `decode`: the binary format and the decoder;
//! - `ops`, `typing`, `validate`: the validation rules and the validator;
//! - `numeric`, `floats`: the numeric instructions;
//! - `semantics`, `jumps`, `interp`: the abstract machine, the targets of
//!   structured control, and the interpreter;
//! - `instance`: modules, instances and calls;
//! - `soundness`: why a valid module is never found invalid when it runs;
//! - `laws`: what holds of the engine as a whole.
pub mod leb128;
pub mod types;
pub mod format;
pub mod decode;
pub mod ops;
pub mod typing;
pub mod validate;
pub mod value;
pub mod numeric;
pub mod floats;
pub mod semantics;
pub mod jumps;
pub mod interp;
pub mod instance;
pub mod soundness;
pub mod laws;

pub use crate::format::DecodeError;
pub use crate::decode::decode;
pub use crate::typing::ValidationError;
pub use crate::value::{ExecutionResult, Trap, Value};
pub use crate::instance::{parse, validate, validate_draft, Instance, Module};

//! A client-side orchestration bridge for driving infrastructure
//! resources through preview / deploy / destroy / refresh / import
//! operations against an external automation runtime.
//!
//! The verified core consists of the typed value bridge and wire codec,
//! the output-reference resolution engine, and the operation
//! orchestration layer.  The process-boundary calls themselves, and the
//! event-dispatch plumbing around them, live outside this library.

pub mod value;
pub mod shims;
pub mod render;
pub mod outputs;
pub mod codec;
pub mod error;
pub mod wire;
pub mod dynamic;
pub mod stack;
pub mod engine;
pub mod config;
pub mod events;

use vstd::prelude::*;

verus! {

pub fn nop() {
}

} // verus!

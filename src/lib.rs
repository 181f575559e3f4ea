//! A virtual machine for Ark bytecode files: the loader, the value and heap
//! model with a mark-sweep collector, call and temporary frames, and the
//! interpreter. Floating-point arithmetic and the formatting of numbers are
//! left to the host, which drives the machine one step at a time.
use vstd::prelude::*;

pub mod ark;
pub mod bytes;
pub mod code_reader;
pub mod exception;
pub mod frame;
pub mod heap;
pub mod instruction;
pub mod laws;
pub mod lists;
pub mod number;
pub mod opcode;
pub mod render;
pub mod value;
pub mod value_ops;
pub mod vm;

verus! {

} // verus!

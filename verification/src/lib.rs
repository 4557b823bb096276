//! A cooperative green-thread runtime: a fixed pool of execution slots, a
//! round-robin scheduler over them, and the stack and register bookkeeping
//! that lets one slot be suspended and another resumed.
//!
//! The machine is modelled by plain values: a register file is a
//! [`context::ThreadContext`], a stack is a byte buffer with a base address,
//! and code addresses are `u64`s. The program around the library carries
//! each switch out on the processor.
//!
//! - [`context`]: the register context and the transfer between two of them.
//! - [`stack`]: stacks as bytes, and the preparation of a fresh stack.
//! - [`slot`]: one slot of the pool.
//! - [`model`]: the runtime as a mathematical value and the scheduling rules.
//! - [`runtime`]: the runtime itself and its operations.
//! - [`trace`]: what holds along every run.
//! - [`order`]: the round-robin order of yields.
//! - [`termination`]: the end of a run.

pub mod context;
pub mod stack;
pub mod slot;
pub mod model;
pub mod runtime;
pub mod trace;
pub mod order;
pub mod termination;

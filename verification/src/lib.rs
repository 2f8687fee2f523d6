//! A single-hart MIPS32 interpreter that advances one instruction per step
//! and leaves a state after each step that an outside verifier can check,
//! together with the values that the gadgets of its proving circuits
//! evaluate to.
//!
//! The interpreter lives in [`state`] (the machine and the engine around
//! it), [`step`] (the single-step transition), [`alu`], [`handlers`] and
//! [`syscall`] (what each kind of instruction does), over the word store
//! of [`memory`] and the oracle channel of [`preimage`]. Every executable
//! function states what it computes over the views defined in [`state`];
//! [`laws`] holds what follows for every program. [`circuit_gadgets`] and
//! [`mips_types`] hold the field side.

pub mod alu;
pub mod bits;
pub mod circuit_gadgets;
pub mod handlers;
pub mod laws;
pub mod memory;
pub mod mips_types;
pub mod preimage;
pub mod state;
pub mod step;
pub mod syscall;

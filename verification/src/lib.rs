//! A verified CHIP-8 execution engine.
//!
//! The engine is a single state machine advanced one instruction at a time by
//! [`machine::Machine::step`]. It owns the 4 KB memory, the sixteen general
//! registers, the call stack, the two 60 Hz countdown timers, the monochrome
//! framebuffer and the 16-key input matrix. The host is expected to load a
//! program at address `0x200`, refresh the keyboard between steps, and read
//! the framebuffer after each step; the engine itself performs no I/O.
//!
//! Every instruction's effect is specified by the pure transition function
//! [`semantics::step_spec`], and `Machine::step_with` is proved to implement
//! it exactly.

pub mod decode;
pub mod laws;
pub mod machine;
pub mod semantics;
pub mod step;

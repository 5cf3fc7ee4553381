//! A toolchain for a small stack-oriented virtual machine: a two-pass
//! assembler that turns line-oriented assembly text into a flat bytecode
//! image, and the virtual machine that executes such an image.
//!
//! The assembler resolves global and scope-local symbols across a
//! `@data` / `@code` split and emits position-correct addresses; the
//! machine decodes a variable-length instruction stream and maintains a
//! value stack, a call stack with per-frame locals, and a global memory
//! array. Every pass and every step is verified against a mathematical
//! specification of the same pipeline, and the laws the image obeys —
//! its length, its preamble, the monotone layout of its sections, the
//! visibility of labels, and determinism — are proved once and for all.

pub mod assembler;
pub mod bytes;
pub mod errors;
pub mod instruction;
pub mod laws;
pub mod lexer;
pub mod opcode;
pub mod program;
pub mod stack;
pub mod vm;

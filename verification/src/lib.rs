//! The code-generation backend of a compiler: applies the result of an
//! external register-allocation solver to a virtual, block-structured
//! instruction program, deterministically producing a fully physical
//! instruction stream — every operand a real register or a concrete
//! stack-pointer offset, every control-flow edge a fall-through or a jump
//! in a checked encoding, and the stack frame fully laid out.
//!
//! The solver itself is an external oracle: its whole-procedure result
//! arrives as plain data (`solver`), is read back one operand at a time by
//! a cursor that polices alignment with the solver's own counts
//! (`cursor`), and is turned into the finished artifact (`pcode`) by a
//! two-phase builder (`builder`) driven by the pass (`regalloc`).
//!
//! `doclayout` is a small side module of the surrounding project: layout
//! data for rendered proof tables and the case-insensitive name mangling
//! its documentation pages use.

pub mod types;
pub mod pinst;
pub mod vcode;
pub mod solver;
pub mod cursor;
pub mod pcode;
pub mod builder;
pub mod clobbers;
pub mod regalloc;
pub mod doclayout;

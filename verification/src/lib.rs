//! An interpreter core for a tiny tape language: a syntax validator and a
//! pointer-and-tape virtual machine, both verified with Verus.
//!
//! A program is a text over the eight symbols `< > + - [ ] . ,`. It is
//! validated first (`validate`, `program`), then executed one instruction
//! at a time on a tape of 30000 byte cells (`machine`), by a caller that
//! does the input and output, or over input held in memory (`run`).

pub mod machine;
pub mod message;
pub mod program;
pub mod run;
pub mod syntax;
pub mod validate;

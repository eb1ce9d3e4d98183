//! An interpreter for a small line-oriented instruction language.
//!
//! The language operates on an infinite zero-initialized tape of 64-bit
//! integers, two scalar registers, and an explicit instruction pointer.
//! Source text is parsed into a sequence of lines ([`parse::root`]), labels
//! are collected and jump targets validated ([`parse::resolve`]), and the
//! resulting program is run by an explicit state machine ([`run::State`]).
//!
//! The library itself performs no input or output: the execution engine
//! reports what it needs from the outside world (a line of input, text to
//! print) as values, and a thin driver around the library performs the
//! actual reads and writes.

pub mod err;
pub mod instrs;
pub mod parse;
pub mod run;

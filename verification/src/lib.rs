//! A miniature native-code compiler for a Lisp-like expression language.
//!
//! Expressions are parsed into a syntax tree, compiled directly into x86-64
//! machine code operating on a single accumulator register, and the
//! resulting byte sequence can be run in an executable memory region (by an
//! embedding program) or stepped through by the instruction-level emulator
//! in this crate.  Runtime values are packed into a single tagged machine
//! word.

pub mod assembler;
pub mod ast;
pub mod compiler;
pub mod emulator;
pub mod encodings;
pub mod reader;
pub mod semantics;
pub mod tokenizer;

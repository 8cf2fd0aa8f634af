//! A tokenizer and a token-walking virtual machine for a small tape language.
//!
//! A program is a text of symbols: `+` and `-` change the cell under the
//! pointer, `>` and `<` move the pointer, `.` prints the cell, `[` N ... `]`
//! repeats its body until the cell equals N, and
//! `(` left `"op"` right `;` body `)` executes its body where the comparison
//! of the two operands holds.
//!
//! * [`grammar`] states what the tokens of a text are, [`lexer`] computes
//!   them.
//! * [`machine`] states what a transition of the machine is, [`vm`] makes
//!   it; [`laws`] holds what follows for all programs.
//! * [`number`] reads the integer literals.
//!
//! The machine does not print: [`vm::VM::single`] hands each value to print
//! to its caller, and [`vm::VM::run`] collects them.

pub mod chars;
pub mod grammar;
pub mod laws;
pub mod lexer;
pub mod machine;
pub mod number;
pub mod vm;

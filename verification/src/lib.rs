//! A two-pass assembler for a small register-based virtual machine.
//!
//! A label pre-pass builds the table of byte addresses, the lexer turns
//! each retained line into a typed token sequence, the parser folds tokens
//! into instruction nodes against the finished table, and the code
//! generator packs every node into one 32-bit word — with one extension
//! word when an immediate operand does not fit its four-bit field.

pub mod chars;
pub mod errors;
pub mod generator;
pub mod instructions;
pub mod lexer;
pub mod parser;
pub mod token;
pub mod utils;

//! A two-pass assembler for a small, fixed assembly language: one
//! address-register instruction form, one compute instruction form, and
//! labels.  Raw source lines are stripped of comments and blanks, classified
//! into instructions, resolved against a symbol table built in two passes,
//! and encoded as fixed-width 16-character binary strings.

pub mod code;
pub mod instruction;
pub mod laws;
pub mod parser;
pub mod symbol_table;
pub mod text;

//! A two-pass assembler for the Hack machine language.
//!
//! The first pass ([`symbol_table::SymbolTable::from`]) binds every label to the
//! index of the instruction that follows it. The second pass
//! ([`instruction_parser::parse_instructions`]) turns every instruction line into
//! a sixteen character binary word, allocating variables on first use.
pub mod instruction_parser;
pub mod mnemonics;
pub mod symbol_table;
pub mod text;
pub mod theorems;

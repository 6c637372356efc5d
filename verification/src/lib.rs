//! A small compiler front end: lexer, Pratt parser, symbol tables and an SSA generator.
pub mod text;
pub mod lexer;
pub mod ast;
pub mod symbol_table;
pub mod parser;
pub mod ir;

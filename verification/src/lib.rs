//! Front end of a small expression language: tokens, an operator-precedence
//! parser, lexical scope resolution, a path-addressed symbol table and a
//! bit-exact type-layout engine.

pub mod location;
pub mod primitives;
pub mod ast;
pub mod tokens;
pub mod errors;
pub mod externs;
pub mod parser;
pub mod symbol_table;
pub mod symbol_table_builder;
pub mod definition_finder;
pub mod rescoper;
pub mod experimental;
pub mod type_checker;
pub mod interpreter;
pub mod to_cpp;

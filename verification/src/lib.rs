//! A small bytecode-compiled language: lexer, parser, type checker,
//! code generator and stack virtual machine, each stated against a
//! mathematical model and proved.

pub mod text;
pub mod token;
pub mod lexer;
pub mod instruction;
pub mod value;
pub mod codegen;
pub mod chunk;
pub mod vm;
pub mod ast;
pub mod parser;
pub mod scope;
pub mod types;
pub mod type_checker;
pub mod driver;

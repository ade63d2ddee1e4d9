pub mod text;
pub mod lexer;
pub mod ast;
pub mod bytecode;
pub mod compiler;
pub mod grammar;
pub mod parser;
pub mod vm_runner;
pub mod object;
pub mod serialize;
pub mod universe;
pub mod helpers;
pub mod roundtrip;
pub mod collections;
pub mod runtime;
pub mod numbers;
pub mod reflect;
pub mod loader;
pub mod eval;
pub mod integrity;
pub mod program;

pub mod ast;
pub mod descent;
pub mod env;
pub mod error;
pub mod eval;
pub mod grammar;
pub mod http;
pub mod lexer;
pub mod numbers;
pub mod parser;
pub mod semantics;
pub mod text;

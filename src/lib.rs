pub mod ast;
pub mod eval;
pub mod laws;
pub mod lexer;
pub mod object;
pub mod ops;
pub mod parser;
pub mod render;
pub mod round_trip;
pub mod show;

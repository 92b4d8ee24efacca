pub mod ast;
pub mod error;
pub mod parser;
pub mod reader;
pub mod runner;
pub mod text;

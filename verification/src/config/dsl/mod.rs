//! The configuration language: its tokens, the raw blocks it describes, and
//! how they are read and compiled.
pub mod lexer;
pub mod syntax;
pub mod blocks;
pub mod errors;
pub mod files;
pub mod parser;
pub mod reader;
pub mod compile;
pub mod read_blocks;

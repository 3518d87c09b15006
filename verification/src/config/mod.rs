pub mod domain;
pub mod parts;
pub mod validate;
pub mod dsl;
pub mod tree;
pub mod dsl_parser;
pub mod parse;
pub mod errors;

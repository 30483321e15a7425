//! A LOLCODE interpreter: lexing, tokenizing, parsing and interpreting.

pub mod error;
pub mod error_blocks;
pub mod interpreter;
pub mod lexer;
pub mod line_breaks;
pub mod parser;
pub mod replay;
pub mod scoping;
pub mod source;
pub mod text;
pub mod tokenizer;
pub mod value;

pub use error::LciError;

pub mod analyzer;
pub mod ast;
pub mod chars;
pub mod error;
pub mod lexer;
pub mod parser;
pub mod printer;
pub mod regex;
pub mod span;
pub mod token;
pub mod warning;

//! The filter language.

pub mod laws;
pub mod lexer;
pub mod number;
pub mod parser;
pub mod reading;
pub mod value;

pub mod ast;
pub mod environment;
pub mod error;
pub mod grammar;
pub mod interpreter;
pub mod number;
pub mod parser;
pub mod printer;
pub mod resolver;
pub mod scanner;
pub mod token;
pub mod value;

pub mod charclass;
pub mod failure;
pub mod grammar;
pub mod grammar_laws;
pub mod lex;
pub mod lint;
pub mod paint;
pub mod parse;
pub mod parser;

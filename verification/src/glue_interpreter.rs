pub mod symbol;
pub mod compound;
pub mod rule;
pub mod env;
pub mod storage;
pub mod index;
pub mod constructor;
pub mod constructor2;
pub mod lang0;
pub mod lang1;
pub mod lang2;
pub mod lang4;
pub mod predicate;
pub mod lexer;
pub mod parser;

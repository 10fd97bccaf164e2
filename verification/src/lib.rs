pub mod ast;
pub mod laws;
pub mod matcher;
pub mod grammar;
pub mod parser;
pub mod search;
pub mod semantics;

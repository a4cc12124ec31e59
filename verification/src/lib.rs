pub mod action;
pub mod assoc;
pub mod execution;
pub mod laws;
pub mod lexer;
pub mod model;
pub mod parser;
pub mod state;
pub mod syntax;
pub mod text;
pub mod writing;

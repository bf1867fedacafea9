pub mod expressions;
pub mod lexer;
pub mod story;

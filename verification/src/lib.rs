pub mod analysis;
pub mod compiler;
pub mod diagnostic;
pub mod parsed;
pub mod parser;
pub mod source;
pub mod text;

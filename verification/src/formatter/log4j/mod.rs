//! Log4j `PatternLayout` formatter engine.

pub mod abbreviator;
pub mod lexer;
pub mod renderer;

pub use lexer::{scan, Keyword, Token};
pub use renderer::Log4jFormatter;

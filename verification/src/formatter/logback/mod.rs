//! Logback pattern formatter engine.

pub mod abbreviator;
pub mod align;
pub mod color;
pub mod date;
pub mod lexer;
pub mod renderer;

pub use align::FormatModifier;
pub use color::Color;

pub use lexer::{scan, Keyword, Token};
pub use renderer::{EventData, LogbackFormatter};

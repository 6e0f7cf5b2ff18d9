pub mod classify;
pub mod group;
pub mod lexer;
pub mod number;
pub mod pipeline;

pub use classify::{valueize, valueize_all, LispVal};
pub use group::generate_stacks;
pub use lexer::{is_terminal, tokenize, tokenize_with, Delimiters, Token};
pub use number::parse_integer;
pub use pipeline::{parse_source, parse_text, str, SourceError};

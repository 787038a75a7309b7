//! Tokens of a lexer front-end: a source offset tagged with a lexical
//! category, a five-byte wire form of that pair, and the recovery of the
//! text a token covers from the sequence it belongs to.

pub mod error;
pub mod locate;
pub mod search;
pub mod text;
pub mod token;
pub mod wire;

pub use error::TokenizationError;
pub use locate::Span;
pub use token::{Token, TokenType};

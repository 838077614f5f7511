//! A scanner that turns an arithmetic expression into numbers and operators.
//!
//! `model` states what the scanner produces as spec functions over `Seq<char>`,
//! `cursor` is a character cursor with one character of look-ahead,
//! `tokenizer` holds the token type and the scanner itself, and `laws`
//! proves the general properties of the scan.
pub mod cursor;
pub mod laws;
pub mod model;
pub mod tokenizer;

pub use cursor::CharCursor;
pub use model::Lexeme;
pub use tokenizer::{Token, Tokenizer};

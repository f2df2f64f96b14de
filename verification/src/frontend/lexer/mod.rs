//! Lexing: source text to a token stream.

pub mod classify;
pub mod keywords;
mod lexer_impl;
pub mod token;

pub use classify::classify_comment;
pub use lexer_impl::tokenize;
pub use keywords::{KEYWORDS, is_keyword};
pub use token::{CommentKind, Token, TokenKind};

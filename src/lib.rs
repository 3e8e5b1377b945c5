//! Front end for a small C-like teaching language: a tokenizer that turns
//! source characters into tokens, and a recursive-descent parser that turns
//! tokens into syntax fragments.
pub mod token;
pub mod lexer;
pub mod fragment;
pub mod grammar;
pub mod parser;

pub use token::Token;
pub use lexer::{Lexer, lex_tokens};
pub use fragment::{Fragment, Element};
pub use parser::{Parser, ParseError, SyntaxError, Production};

//! A verified lexical-scanning engine.
//!
//! An ordered list of pattern rules is evaluated against a shared scan
//! cursor; the first rule whose pattern matches at the current position
//! wins, the cursor advances past the match, and the rule's action either
//! emits a token, skips the match, or stops the scanner. Line and column
//! positions are tracked precisely, including across newlines, and a rule
//! may hand the cursor to a nested rule set that consumes further input
//! before control returns.

pub mod lex_buf;
pub mod lexer;
pub mod pattern;
pub mod rules;
pub mod semantics;
pub mod src_loc;

pub use lex_buf::LexBuf;
pub use lexer::{LexError, Lexer};
pub use rules::{Action, BuildError, Outcome, RuleSet};
pub use src_loc::SrcLoc;

//! A configuration-driven lexical scanner.
//!
//! A rule set (token categories with priorities, regular-expression patterns per
//! category, and special rules for delimited or column-anchored constructs) is
//! compiled once into a `TokenizerConfig`; a `FlexibleTokenizer` then turns an
//! input text into classified tokens with line and column positions.

pub mod text;
pub mod error;
pub mod token;
pub mod table;
pub mod pattern;
pub mod config;
pub mod tokenizer;

pub use config::TokenizerConfig;
pub use error::{ConfigError, TokenizerError};
pub use tokenizer::FlexibleTokenizer;

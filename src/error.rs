//! Errors of rule-set compilation and of scanning.
use vstd::prelude::*;
use vstd::string::*;

verus! {

/// Errors that can occur while a rule set is read or compiled.
#[derive(Debug, Clone, PartialEq, Eq)]
pub enum ConfigError {
    /// The rule set could not be read.
    IoError(String),
    /// The rule set could not be parsed.
    ParseError(String),
    /// A pattern's source text does not compile; carries that text.
    InvalidRegex(String),
    /// A required field is missing or empty; carries the field's name.
    MissingField(String),
    /// Any other configuration problem.
    ConfigurationError(String),
}

/// Errors that can occur while scanning.
#[derive(Debug, Clone, PartialEq, Eq)]
pub enum TokenizerError {
    /// A configuration error met while setting up a scan.
    ConfigError(ConfigError),
    /// An unexpected character (reserved for stricter modes).
    UnexpectedCharacter(char),
    /// An invalid token (reserved for stricter modes).
    InvalidToken(String),
    /// Any other scanning problem (reserved for stricter modes).
    TokenizationError(String),
}

impl ConfigError {
    /// A human-readable description: a fixed prefix per kind, then the detail.
    pub fn to_string(&self) -> (r: String)
        ensures
            r@ == self.prefix() + self.detail(),
    {
        match self {
            ConfigError::IoError(s) => String::from_str("IO error: ").concat(s.as_str()),
            ConfigError::ParseError(s) => String::from_str("Parse error: ").concat(s.as_str()),
            ConfigError::InvalidRegex(s) => String::from_str("Invalid regex pattern: ").concat(
                s.as_str(),
            ),
            ConfigError::MissingField(s) => String::from_str("Missing required field: ").concat(
                s.as_str(),
            ),
            ConfigError::ConfigurationError(s) => String::from_str("Configuration error: ").concat(
                s.as_str(),
            ),
        }
    }

    /// The fixed text that opens the description of this kind of error.
    pub open spec fn prefix(&self) -> Seq<char> {
        match self {
            ConfigError::IoError(_) => "IO error: "@,
            ConfigError::ParseError(_) => "Parse error: "@,
            ConfigError::InvalidRegex(_) => "Invalid regex pattern: "@,
            ConfigError::MissingField(_) => "Missing required field: "@,
            ConfigError::ConfigurationError(_) => "Configuration error: "@,
        }
    }

    /// The detail that the error carries.
    pub open spec fn detail(&self) -> Seq<char> {
        match self {
            ConfigError::IoError(s) => s@,
            ConfigError::ParseError(s) => s@,
            ConfigError::InvalidRegex(s) => s@,
            ConfigError::MissingField(s) => s@,
            ConfigError::ConfigurationError(s) => s@,
        }
    }
}

/// Relies on `char`'s `to_string`: the text of a character is that character
/// alone.
#[verifier::external_body]
fn char_text(c: char) -> (r: String)
    ensures
        r@ == seq![c],
{
    c.to_string()
}

impl TokenizerError {
    /// A human-readable description: a fixed prefix per kind, then the detail
    /// (for a configuration error, its own description).
    pub fn to_string(&self) -> (r: String)
        ensures
            r@ == self.prefix() + self.detail(),
    {
        match self {
            TokenizerError::ConfigError(e) => String::from_str("Configuration error: ").concat(
                e.to_string().as_str(),
            ),
            TokenizerError::UnexpectedCharacter(c) => String::from_str(
                "Unexpected character: ",
            ).concat(char_text(*c).as_str()),
            TokenizerError::InvalidToken(s) => String::from_str("Invalid token: ").concat(s.as_str()),
            TokenizerError::TokenizationError(s) => String::from_str("Tokenization error: ").concat(
                s.as_str(),
            ),
        }
    }

    /// The fixed text that opens the description of this kind of error.
    pub open spec fn prefix(&self) -> Seq<char> {
        match self {
            TokenizerError::ConfigError(_) => "Configuration error: "@,
            TokenizerError::UnexpectedCharacter(_) => "Unexpected character: "@,
            TokenizerError::InvalidToken(_) => "Invalid token: "@,
            TokenizerError::TokenizationError(_) => "Tokenization error: "@,
        }
    }

    /// The detail that the error carries.
    pub open spec fn detail(&self) -> Seq<char> {
        match self {
            TokenizerError::ConfigError(e) => e.prefix() + e.detail(),
            TokenizerError::UnexpectedCharacter(c) => seq![*c],
            TokenizerError::InvalidToken(s) => s@,
            TokenizerError::TokenizationError(s) => s@,
        }
    }
}

impl From<ConfigError> for TokenizerError {
    fn from(e: ConfigError) -> (r: TokenizerError) {
        TokenizerError::ConfigError(e)
    }
}

impl vstd::std_specs::convert::FromSpecImpl<ConfigError> for TokenizerError {
    open spec fn obeys_from_spec() -> bool {
        true
    }

    open spec fn from_spec(e: ConfigError) -> TokenizerError {
        TokenizerError::ConfigError(e)
    }
}

} // verus!

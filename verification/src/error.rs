//! The errors a parse can end in.

use vstd::prelude::*;
use vstd::string::*;

verus! {

/// Why a parse was given up. Each variant is recoverable: the caller shows
/// the message in place of formatted output.
#[derive(Debug, PartialEq, Eq)]
pub enum ParseError {
    /// The text of a program holds no token.
    EmptyInput,
    /// A construct looked at its leading token again and it was not its own.
    UnexpectedToken { expected: String, found: String },
    /// The tokens ran out, or ran astray, within a construct: a construct
    /// that is read from no tokens at all misses them too.
    MissingTokens,
    /// No statement begins with this token.
    UnknownStatement(String),
    /// This token is not an operator of the kind that was asked for.
    InvalidOperator(String),
}

/// A `ParseError` with its texts as sequences of characters.
pub enum ParseErrorModel {
    EmptyInput,
    UnexpectedToken { expected: Seq<char>, found: Seq<char> },
    MissingTokens,
    UnknownStatement(Seq<char>),
    InvalidOperator(Seq<char>),
}

impl View for ParseError {
    type V = ParseErrorModel;

    open spec fn view(&self) -> ParseErrorModel {
        match *self {
            ParseError::EmptyInput => ParseErrorModel::EmptyInput,
            ParseError::UnexpectedToken { expected, found } => ParseErrorModel::UnexpectedToken {
                expected: expected@,
                found: found@,
            },
            ParseError::MissingTokens => ParseErrorModel::MissingTokens,
            ParseError::UnknownStatement(token) => ParseErrorModel::UnknownStatement(token@),
            ParseError::InvalidOperator(token) => ParseErrorModel::InvalidOperator(token@),
        }
    }
}

/// The message that `ParseError::message` renders.
pub open spec fn error_text(e: ParseErrorModel) -> Seq<char> {
    match e {
        ParseErrorModel::EmptyInput => "no tokens to parse"@,
        ParseErrorModel::UnexpectedToken { expected, found } => "expected '"@ + expected
            + "' but found '"@ + found + "'"@,
        ParseErrorModel::MissingTokens => "input ended in the middle of a construct"@,
        ParseErrorModel::UnknownStatement(token) => "unknown statement: "@ + token,
        ParseErrorModel::InvalidOperator(token) => "invalid operator: "@ + token,
    }
}

impl ParseError {
    /// `UnexpectedToken` naming what was expected and what stood there.
    pub fn unexpected(expected: &str, found: &str) -> (e: ParseError)
        ensures
            e@ == (ParseErrorModel::UnexpectedToken { expected: expected@, found: found@ }),
    {
        ParseError::UnexpectedToken {
            expected: String::from_str(expected),
            found: String::from_str(found),
        }
    }

    /// `UnknownStatement` naming the token.
    pub fn unknown_statement(token: &str) -> (e: ParseError)
        ensures
            e@ == ParseErrorModel::UnknownStatement(token@),
    {
        ParseError::UnknownStatement(String::from_str(token))
    }

    /// `InvalidOperator` naming the token.
    pub fn invalid_operator(token: &str) -> (e: ParseError)
        ensures
            e@ == ParseErrorModel::InvalidOperator(token@),
    {
        ParseError::InvalidOperator(String::from_str(token))
    }

    /// The error as a line of text for the reader.
    pub fn message(&self) -> (text: String)
        ensures
            text@ == error_text(self@),
    {
        match self {
            ParseError::EmptyInput => String::from_str("no tokens to parse"),
            ParseError::UnexpectedToken { expected, found } => {
                let mut text = String::from_str("expected '");
                text.append(expected.as_str());
                text.append("' but found '");
                text.append(found.as_str());
                text.append("'");
                text
            },
            ParseError::MissingTokens => String::from_str(
                "input ended in the middle of a construct",
            ),
            ParseError::UnknownStatement(token) => {
                let mut text = String::from_str("unknown statement: ");
                text.append(token.as_str());
                text
            },
            ParseError::InvalidOperator(token) => {
                let mut text = String::from_str("invalid operator: ");
                text.append(token.as_str());
                text
            },
        }
    }
}

} // verus!

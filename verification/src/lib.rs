//! A recursive-descent parser and indentation-aware pretty-printer for a small
//! imperative pseudocode language.
//!
//! A text is cut into whitespace-delimited tokens ([`text`]), the tokens are
//! parsed into a tree of statements ([`node`]) over conditions
//! ([`condition`]) and expressions ([`expression`], [`operator`],
//! [`number`]), and the tree is written out again, one statement to a line
//! and each block indented below the construct that owns it ([`formatter`]).
//! A text that is no program ends in an error ([`error`]) that names the
//! token and the construct that refused it.
//!
//! Each parser is verified against a grammar: a spec function from a token
//! list to the model of what is read and the tokens left over, or to an
//! error ([`parsing`]). The formatter is verified against the text that a
//! model stands for. Formatting and parsing undo each other on the
//! canonical trees ([`canonical`], [`round_trip`]), every parsed program is
//! well nested ([`nesting`]), the formatted text of a program stays the
//! same when it is formatted again ([`settle`]), and its lines are indented
//! by their depth ([`layout`]).
//!
//! [`state`] holds the rules by which key presses move the focus between
//! the editor and the preview of a front end.

pub mod canonical;
pub mod condition;
pub mod condition_lemmas;
pub mod error;
pub mod expression;
pub mod expression_lemmas;
pub mod formatter;
pub mod keyword_lemmas;
pub mod layout;
pub mod nesting;
pub mod node;
pub mod number;
pub mod operator;
pub mod parsing;
pub mod round_trip;
pub mod settle;
pub mod state;
pub mod text;
pub mod text_lemmas;

//! What the parser reports about text that it cannot make sense of.

use crate::syntax_kind::SyntaxKind;
use vstd::prelude::*;
use vstd::string::StringExecFns;

verus! {

/// One complaint of the parser. Parsing goes on after each of them.
#[derive(Clone, Copy, Debug, PartialEq, Eq, Structural)]
pub enum ParseError {
    /// A token of kind `expected` had to stand where one of kind `got`
    /// stood. The token was not consumed.
    Expected { expected: SyntaxKind, got: SyntaxKind },
    /// No rule starts with a token of kind `got`. The token was consumed.
    Unexpected { got: SyntaxKind },
    /// In a list, after an item, neither the separator nor the closing
    /// token stood, but a token of kind `got`.
    SeparatorOrTerminator { separator: SyntaxKind, terminator: SyntaxKind, got: SyntaxKind },
}

impl ParseError {
    /// The complaint in words, the kinds by their names.
    pub open spec fn message_spec(self) -> Seq<char> {
        match self {
            ParseError::Expected { expected, got } => "expected "@ + expected.name_spec() + ", got "@
                + got.name_spec(),
            ParseError::Unexpected { got } => "Unexpected "@ + got.name_spec(),
            ParseError::SeparatorOrTerminator { separator, terminator, got } => "expected "@
                + separator.name_spec() + " or "@ + terminator.name_spec() + ", got "@
                + got.name_spec(),
        }
    }

    /// The complaint in words.
    pub fn message(&self) -> (message: String)
        ensures
            message@ == self.message_spec(),
    {
        match self {
            ParseError::Expected { expected, got } => {
                let mut message = String::from_str("expected ");
                message.append(expected.name());
                message.append(", got ");
                message.append(got.name());
                message
            },
            ParseError::Unexpected { got } => {
                let mut message = String::from_str("Unexpected ");
                message.append(got.name());
                message
            },
            ParseError::SeparatorOrTerminator { separator, terminator, got } => {
                let mut message = String::from_str("expected ");
                message.append(separator.name());
                message.append(" or ");
                message.append(terminator.name());
                message.append(", got ");
                message.append(got.name());
                message
            },
        }
    }
}

} // verus!

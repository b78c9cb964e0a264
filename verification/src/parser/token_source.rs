//! What the parser sees of its input: tokens, bookmarks ahead of the cursor,
//! and the properties by which it looks for one.

use crate::syntax_kind::SyntaxKind;
use vstd::prelude::*;

verus! {

/// A token as the lexer cuts it: a kind and a length in bytes.
#[derive(Clone, Copy, Debug, PartialEq, Eq, Structural)]
pub struct Token {
    /// The kind of the token.
    pub syntax_kind: SyntaxKind,
    /// The number of bytes of the source text that the token covers.
    pub len: u32,
}

/// A bookmark on a token at or ahead of the cursor: the cursor's place when
/// the bookmark was made, and how far ahead the token stood.
#[derive(Clone, Copy, Debug, PartialEq, Eq, Structural)]
pub struct ForwardToken {
    /// The kind that was found.
    pub kind: SyntaxKind,
    /// How many tokens ahead of the cursor it was found.
    pub offset: usize,
    /// The cursor at the time of the search.
    pub state: usize,
}

impl ForwardToken {
    /// The bookmark that a search without a result hands out.
    pub open spec fn not_found() -> ForwardToken {
        ForwardToken { kind: SyntaxKind::EOF, offset: 0, state: 0 }
    }
}

impl Default for ForwardToken {
    fn default() -> (r: ForwardToken)
        ensures
            r == ForwardToken::not_found(),
    {
        ForwardToken { kind: SyntaxKind::EOF, offset: 0, state: 0 }
    }
}

/// What a search ahead of the cursor looks for. Each property is tested
/// against whole tokens, so a composite kind such as `==` is found where its
/// parts stand side by side.
#[derive(Clone, Copy, Debug)]
pub enum FindProperty<'a> {
    /// A token of one of these kinds.
    In(&'a [SyntaxKind]),
    /// A token of none of these kinds.
    NotIn(&'a [SyntaxKind]),
    /// A token of this kind.
    KindIs(SyntaxKind),
    /// A token of another kind than this.
    KindIsNot(SyntaxKind),
}

} // verus!

//! What holds of the tree of every text, whatever the text is.

use crate::green::leaf_bytes;
use crate::lexer::{lemma_lex, lex};
use crate::parser::event::resolved;
use crate::parser::tree_sink::lemma_finished_lossless;
use crate::parser::{errors_of, parsed_events, tree_of};
use vstd::prelude::*;
use vstd::utf8::valid_utf8;

verus! {

/// The leaves of the tree of a text, one after the other in the order of
/// the tree, are the text, byte for byte.
pub proof fn lemma_tree_holds_text(text: Seq<u8>)
    requires
        valid_utf8(text),
        text.len() <= u32::MAX,
    ensures
        leaf_bytes(tree_of(text)) == text,
{
    lemma_lex(text);
    lemma_finished_lossless(text, lex(text), resolved(parsed_events(lex(text))));
}

/// The lengths of the leaves of the tree of a text add up to the length of
/// the text.
pub proof fn lemma_tree_keeps_length(text: Seq<u8>)
    requires
        valid_utf8(text),
        text.len() <= u32::MAX,
    ensures
        leaf_bytes(tree_of(text)).len() == text.len(),
{
    lemma_tree_holds_text(text);
}

/// Printing the tree of a text, leaf after leaf, and parsing what was
/// printed gives the same tree and the same complaints again.
pub proof fn lemma_reprint_is_stable(text: Seq<u8>)
    requires
        valid_utf8(text),
        text.len() <= u32::MAX,
    ensures
        tree_of(leaf_bytes(tree_of(text))) == tree_of(text),
        errors_of(leaf_bytes(tree_of(text))) == errors_of(text),
{
    lemma_tree_holds_text(text);
}

} // verus!

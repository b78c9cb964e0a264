//! The sink that builds a green tree over the source text: it gives every
//! token, trivia too, a leaf with its text.

use crate::green::{
    builder_finish, builder_finish_node, builder_new, builder_start_node, builder_steps,
    builder_token, depth, green_steps, is_tree, leaf_bytes, TreeStep,
};
use crate::parser::error::ParseError;
use crate::parser::token_source::Token;
use crate::parser::tree_sink::{
    boundary, closed_node, complained, cuts, fresh, leafed, lemma_own_leaves, lemma_push_step,
    lemma_open_first, lemma_start_of, lemma_trivia_end, open_tree, own_leaves, start_of,
    started, token_text, trivia_end, SinkModel,
};
use crate::syntax_kind::SyntaxKind;
use vstd::prelude::*;
use vstd::string::StringSliceAdditionalSpecFns;

verus! {

/// Where the sink stands between two events.
#[derive(Clone, Copy, Debug, PartialEq, Eq, Structural)]
pub enum State {
    /// No node was opened yet.
    PendingStart,
    /// Nothing waits.
    Normal,
    /// A node was closed, and the builder has not been told yet.
    PendingFinish,
}

/// What a sink holds: the text, its tokens, and what it has done so far.
pub struct SinkView {
    /// The bytes of the source text.
    pub text: Seq<u8>,
    /// All tokens of the lexer, trivia among them.
    pub tokens: Seq<Token>,
    /// What the sink has done so far.
    pub model: SinkModel,
}

/// A tree sink over a text and the tokens that the lexer cut it into.
pub struct TextTreeSink<'a> {
    text: &'a str,
    rest: &'a str,
    tokens: &'a [Token],
    text_pos: u32,
    token_pos: usize,
    state: State,
    inner: rowan::GreenNodeBuilder<'static>,
    errors: Vec<(ParseError, u32)>,
}

impl<'a> View for TextTreeSink<'a> {
    type V = SinkView;

    closed spec fn view(&self) -> SinkView {
        SinkView {
            text: self.text.spec_bytes(),
            tokens: self.tokens@,
            model: SinkModel {
                pos: self.token_pos as int,
                steps: if self.state == State::PendingFinish {
                    builder_steps(self.inner).push(TreeStep::Finish)
                } else {
                    builder_steps(self.inner)
                },
                errors: self.errors@,
            },
        }
    }
}

impl<'a> TextTreeSink<'a> {
    spec fn in_step(&self) -> bool {
        &&& self.token_pos <= self.tokens@.len() <= usize::MAX
        &&& self.text.spec_bytes().len() <= u32::MAX
        &&& cuts(self.text.spec_bytes(), self.tokens@)
        &&& self.text_pos == start_of(self.tokens@, self.token_pos as int)
        &&& self.rest.spec_bytes() == self.text.spec_bytes().skip(self.text_pos as int)
        &&& leaf_bytes(builder_steps(self.inner)) == self.text.spec_bytes().take(
            self.text_pos as int,
        )
    }

    /// The sink is in order: it has read as much of the text as its leaves
    /// hold, and the tree so far lies within one root.
    pub closed spec fn wf(&self) -> bool {
        &&& self.in_step()
        &&& match self.state {
            State::PendingStart => builder_steps(self.inner).len() == 0,
            _ => builder_steps(self.inner).len() > 0 && open_tree(builder_steps(self.inner)),
        }
    }

    /// What a sink in order knows of its text and tokens.
    pub proof fn lemma_wf(&self)
        requires
            self.wf(),
        ensures
            0 <= self@.model.pos <= self@.tokens.len() <= usize::MAX,
            self@.text.len() <= u32::MAX,
            cuts(self@.text, self@.tokens),
    {
    }

    /// A sink over `text` and the tokens that cover it.
    pub fn new(text: &'a str, tokens: &'a [Token]) -> (sink: Self)
        requires
            cuts(text.spec_bytes(), tokens@),
            text.spec_bytes().len() <= u32::MAX,
        ensures
            sink.wf(),
            sink@ == (SinkView { text: text.spec_bytes(), tokens: tokens@, model: fresh() }),
    {
        let inner = builder_new();
        let n = tokens.len();
        let sink = TextTreeSink {
            text,
            rest: text,
            tokens,
            text_pos: 0,
            token_pos: 0,
            state: State::PendingStart,
            inner,
            errors: Vec::new(),
        };
        proof {
            assert(tokens@.take(0) =~= Seq::<Token>::empty());
            assert(text.spec_bytes().skip(0) =~= text.spec_bytes());
            assert(builder_steps(sink.inner) =~= Seq::<TreeStep>::empty());
            assert(text.spec_bytes().take(0) =~= Seq::<u8>::empty());
            assert(sink@.model.steps =~= Seq::<TreeStep>::empty());
            assert(sink@.model.errors =~= Seq::<(ParseError, u32)>::empty());
        }
        sink
    }

    /// Makes one leaf of raw kind `raw` of the next `n_tokens` tokens.
    fn do_token(&mut self, raw: u16, n_tokens: usize)
        requires
            old(self).in_step(),
            old(self).token_pos + n_tokens <= old(self).tokens@.len(),
        ensures
            final(self).in_step(),
            builder_steps(final(self).inner) == builder_steps(old(self).inner).push(
                TreeStep::Token(
                    raw,
                    token_text(
                        old(self).text.spec_bytes(),
                        old(self).tokens@,
                        old(self).token_pos as int,
                        n_tokens as int,
                    ),
                ),
            ),
            final(self).token_pos == old(self).token_pos + n_tokens,
            final(self).state == old(self).state,
            final(self).errors == old(self).errors,
            final(self).text == old(self).text,
            final(self).tokens == old(self).tokens,
    {
        let ghost text = self.text.spec_bytes();
        let ghost tokens = self.tokens@;
        let total = self.tokens.len();
        let mut len: u32 = 0;
        let mut k: usize = 0;
        while k < n_tokens
            invariant
                0 <= k <= n_tokens,
                self.token_pos + n_tokens <= self.tokens@.len() == total,
                self.tokens@ == tokens,
                crate::parser::text_token_source::total_len(tokens) <= u32::MAX,
                self.text_pos == start_of(tokens, self.token_pos as int),
                self.text_pos + len == start_of(tokens, self.token_pos + k),
            decreases n_tokens - k,
        {
            proof {
                lemma_start_of(tokens, self.token_pos + k);
            }
            len = len + self.tokens[self.token_pos + k].len;
            k = k + 1;
        }
        proof {
            let end = self.text_pos + len;
            assert(boundary(text, start_of(tokens, self.token_pos + n_tokens)));
            crate::parser::text_token_source::lemma_total_len_take(
                tokens,
                self.token_pos + n_tokens,
            );
            vstd::utf8::encode_utf8_valid_utf8(self.rest@);
            if end == text.len() {
                vstd::utf8::is_char_boundary_start_end_of_seq(self.rest.spec_bytes());
            } else {
                assert(self.rest.spec_bytes()[len as int] == text[end]);
                vstd::utf8::is_char_boundary_iff_not_is_continuation_byte(
                    self.rest.spec_bytes(),
                    len as int,
                );
            }
        }
        let (piece, rest) = self.rest.split_at(len as usize);
        builder_token(&mut self.inner, raw, piece);
        proof {
            let before = builder_steps(old(self).inner);
            let leaf = TreeStep::Token(raw, piece.spec_bytes());
            lemma_push_step(before, leaf);
            assert(piece.spec_bytes() =~= token_text(
                text,
                tokens,
                self.token_pos as int,
                n_tokens as int,
            ));
            assert(text.take(self.text_pos as int) + piece.spec_bytes() =~= text.take(
                self.text_pos + len,
            ));
            assert(rest.spec_bytes() =~= text.skip(self.text_pos + len));
        }
        self.rest = rest;
        self.text_pos = self.text_pos + len;
        self.token_pos = self.token_pos + n_tokens;
    }

    /// Makes a leaf of every token up to place `to`, each of its own kind.
    fn eat_to(&mut self, to: usize)
        requires
            old(self).in_step(),
            old(self).token_pos <= to <= old(self).tokens@.len(),
        ensures
            final(self).in_step(),
            builder_steps(final(self).inner) == builder_steps(old(self).inner) + own_leaves(
                old(self).text.spec_bytes(),
                old(self).tokens@,
                old(self).token_pos as int,
                to as int,
            ),
            final(self).token_pos == to,
            final(self).state == old(self).state,
            final(self).errors == old(self).errors,
            final(self).text == old(self).text,
            final(self).tokens == old(self).tokens,
    {
        proof {
            assert(builder_steps(self.inner) + own_leaves(
                self.text.spec_bytes(),
                self.tokens@,
                self.token_pos as int,
                self.token_pos as int,
            ) =~= builder_steps(self.inner));
        }
        while self.token_pos < to
            invariant
                self.in_step(),
                old(self).token_pos <= self.token_pos <= to <= self.tokens@.len(),
                builder_steps(self.inner) == builder_steps(old(self).inner) + own_leaves(
                    old(self).text.spec_bytes(),
                    old(self).tokens@,
                    old(self).token_pos as int,
                    self.token_pos as int,
                ),
                self.state == old(self).state,
                self.errors == old(self).errors,
                self.text == old(self).text,
                self.tokens == old(self).tokens,
            decreases to - self.token_pos,
        {
            let ghost before = builder_steps(self.inner);
            let kind = self.tokens[self.token_pos].syntax_kind;
            self.do_token(kind.to_raw(), 1);
            proof {
                assert(builder_steps(self.inner) =~= builder_steps(old(self).inner) + own_leaves(
                    old(self).text.spec_bytes(),
                    old(self).tokens@,
                    old(self).token_pos as int,
                    self.token_pos as int,
                ));
            }
        }
    }

    /// The place where the trivia under the cursor ends.
    fn trivia_ahead(&self) -> (to: usize)
        requires
            self.in_step(),
        ensures
            to == trivia_end(self.tokens@, self.token_pos as int),
            self.token_pos <= to <= self.tokens@.len(),
    {
        let mut to = self.token_pos;
        proof {
            lemma_trivia_end(self.tokens@, self.token_pos as int);
        }
        while to < self.tokens.len() && self.tokens[to].syntax_kind.is_trivia()
            invariant
                self.token_pos <= to <= self.tokens@.len(),
                trivia_end(self.tokens@, to as int) == trivia_end(
                    self.tokens@,
                    self.token_pos as int,
                ),
            decreases self.tokens@.len() - to,
        {
            to = to + 1;
        }
        to
    }

    /// Tells the builder of a node that was closed and not reported yet.
    fn settle(&mut self)
        requires
            old(self).wf(),
            old(self)@.model.steps.len() == 0 || depth(old(self)@.model.steps) >= 1,
        ensures
            final(self).in_step(),
            final(self)@ == old(self)@,
            final(self).state != State::PendingFinish,
            builder_steps(final(self).inner) == old(self)@.model.steps,
            final(self).state == State::PendingStart <==> old(self)@.model.steps.len() == 0,
            old(self)@.model.steps.len() > 0 ==> open_tree(builder_steps(final(self).inner)),
            final(self).token_pos == old(self).token_pos,
            final(self).text == old(self).text,
            final(self).tokens == old(self).tokens,
    {
        match self.state {
            State::PendingFinish => {
                proof {
                    let steps = builder_steps(self.inner);
                    assert(steps.take(steps.len() as int) =~= steps);
                    lemma_push_step(steps, TreeStep::Finish);
                }
                builder_finish_node(&mut self.inner);
                self.state = State::Normal;
            },
            _ => {},
        }
    }

    /// A leaf of kind `kind`, made of the next `n_tokens` tokens after the
    /// trivia under the cursor, or of as many as are left. The trivia
    /// before them become leaves first, in the node that is open.
    pub fn token(&mut self, kind: SyntaxKind, n_tokens: u8)
        requires
            old(self).wf(),
            old(self)@.model.steps.len() > 0,
            depth(old(self)@.model.steps) >= 1,
        ensures
            final(self).wf(),
            final(self)@ == (SinkView {
                model: leafed(
                    old(self)@.text,
                    old(self)@.tokens,
                    old(self)@.model,
                    kind.raw(),
                    n_tokens as int,
                ),
                ..old(self)@
            }),
            depth(final(self)@.model.steps) == depth(old(self)@.model.steps),
    {
        self.settle();
        let ghost text = self.text.spec_bytes();
        let ghost tokens = self.tokens@;
        let ghost start = builder_steps(self.inner);
        let ghost from = self.token_pos as int;
        let to = self.trivia_ahead();
        self.eat_to(to);
        let left = self.tokens.len() - to;
        let width = if (n_tokens as usize) <= left {
            n_tokens as usize
        } else {
            left
        };
        self.do_token(kind.to_raw(), width);
        proof {
            lemma_own_leaves(text, tokens, start, from, to as int);
            let leaf = TreeStep::Token(
                kind.raw(),
                token_text(text, tokens, to as int, width as int),
            );
            lemma_push_step(start + own_leaves(text, tokens, from, to as int), leaf);
        }
    }

    /// A node of kind `kind` opens.
    pub fn start_node(&mut self, kind: SyntaxKind)
        requires
            old(self).wf(),
            old(self)@.model.steps.len() == 0 || depth(old(self)@.model.steps) >= 1,
        ensures
            final(self).wf(),
            final(self)@ == (SinkView { model: started(old(self)@.model, kind.raw()), ..old(self)@ }),
            depth(final(self)@.model.steps) == depth(old(self)@.model.steps) + 1,
    {
        self.settle();
        proof {
            let steps = builder_steps(self.inner);
            lemma_push_step(steps, TreeStep::Start(kind.raw()));
            if steps.len() == 0 {
                assert(depth(steps) == 0);
                assert(open_tree(steps));
            }
        }
        builder_start_node(&mut self.inner, kind.to_raw());
        self.state = State::Normal;
    }

    /// The innermost open node closes.
    pub fn finish_node(&mut self)
        requires
            old(self).wf(),
            old(self)@.model.steps.len() > 0,
            depth(old(self)@.model.steps) >= 1,
        ensures
            final(self).wf(),
            final(self)@ == (SinkView { model: closed_node(old(self)@.model), ..old(self)@ }),
            depth(final(self)@.model.steps) == depth(old(self)@.model.steps) - 1,
    {
        self.settle();
        proof {
            lemma_push_step(builder_steps(self.inner), TreeStep::Finish);
        }
        self.state = State::PendingFinish;
    }

    /// Files a complaint under the byte that the sink has reached.
    pub fn error(&mut self, error: ParseError)
        requires
            old(self).wf(),
        ensures
            final(self).wf(),
            final(self)@ == (SinkView {
                model: complained(old(self)@.tokens, old(self)@.model, error),
                ..old(self)@
            }),
    {
        self.errors.push((error, self.text_pos));
    }

    /// Closes the root and hands out the tree and the complaints. Every
    /// token that is no leaf yet becomes a leaf of the root first, so the
    /// leaves of the tree hold the whole text.
    pub fn finish(self) -> (result: (rowan::GreenNode, Vec<(ParseError, u32)>))
        requires
            self.wf(),
            self@.model.steps.len() > 0,
            depth(self@.model.steps) == 0,
        ensures
            green_steps(result.0) == (self@.model.steps.drop_last() + own_leaves(
                self@.text,
                self@.tokens,
                self@.model.pos,
                self@.tokens.len() as int,
            )).push(TreeStep::Finish),
            result.1@ == self@.model.errors,
            leaf_bytes(green_steps(result.0)) == self@.text,
            is_tree(green_steps(result.0)),
    {
        let mut sink = self;
        let ghost text = sink.text.spec_bytes();
        let ghost tokens = sink.tokens@;
        let ghost start = builder_steps(sink.inner);
        let ghost from = sink.token_pos as int;
        proof {
            if sink.state != State::PendingFinish {
                assert(start.take(start.len() as int) =~= start);
                assert(false);
            }
            assert(start.push(TreeStep::Finish).drop_last() =~= start);
            lemma_push_step(start, TreeStep::Finish);
            assert(depth(start) == 1);
        }
        let to = sink.tokens.len();
        sink.eat_to(to);
        proof {
            lemma_own_leaves(text, tokens, start, from, to as int);
            let body = start + own_leaves(text, tokens, from, to as int);
            lemma_push_step(body, TreeStep::Finish);
            assert(tokens.take(to as int) =~= tokens);
            assert(text.take(text.len() as int) =~= text);
            let whole = body.push(TreeStep::Finish);
            assert forall|k: int| 0 < k < whole.len() implies depth(#[trigger] whole.take(k))
                >= 1 by {
                assert(whole.take(k) =~= body.take(k));
            }
            lemma_open_first(start);
            assert(whole[0] == start[0]);
        }
        builder_finish_node(&mut sink.inner);
        let node = builder_finish(sink.inner);
        (node, sink.errors)
    }
}

} // verus!
